//! Events of a provider stream, and the reader of Anthropic's event stream.

use vstd::prelude::*;
use vstd::string::StringExecFns;
use vstd::utf8::valid_utf8;
use crate::api::error::{event_failure, stream_error, ApiFailure, ApiFailureKind, FailureView};
use crate::api::lines::{
    all_text, first_bad_line, law_chunks, line_texts, split_lines, Utf8LineDecoder,
};
use crate::api::types::{text_option, Usage, UsageView};
use crate::json::{json_views, parsed_json, Json, JsonView};
use crate::text;
use crate::text::{texts, trimmed, utf8_error};

verus! {

/// Events emitted by a provider stream.
#[allow(inconsistent_fields)]
pub enum ApiEvent {
    /// Streaming text from the assistant.
    Text(String),
    /// Provider reasoning state that must be replayed on later tool rounds.
    Reasoning { text: Option<String>, details: Vec<Json> },
    /// Tool use request.
    ToolUse { id: String, name: String, input: Json },
    /// Usage information.
    Usage(Usage),
    /// Stream complete.
    Done,
    /// Error from the API, classified so that the turn loop can choose a recovery.
    Error(ApiFailure),
}

/// A stream event as a mathematical object.
#[allow(inconsistent_fields)]
pub enum EventView {
    Text(Seq<char>),
    Reasoning { text: Option<Seq<char>>, details: Seq<JsonView> },
    ToolUse { id: Seq<char>, name: Seq<char>, input: JsonView },
    Usage(UsageView),
    Done,
    Error(FailureView),
}

impl View for ApiEvent {
    type V = EventView;

    open spec fn view(&self) -> EventView {
        match self {
            ApiEvent::Text(s) => EventView::Text(s@),
            ApiEvent::Reasoning { text, details } => EventView::Reasoning {
                text: text_option(*text),
                details: json_views(details@),
            },
            ApiEvent::ToolUse { id, name, input } => EventView::ToolUse {
                id: id@,
                name: name@,
                input: input@,
            },
            ApiEvent::Usage(usage) => EventView::Usage(usage@),
            ApiEvent::Done => EventView::Done,
            ApiEvent::Error(failure) => EventView::Error(failure@),
        }
    }
}

/// The views of a list of events.
pub open spec fn event_views(events: Seq<ApiEvent>) -> Seq<EventView> {
    Seq::new(events.len(), |i: int| events[i]@)
}

/// Appends an event.
pub fn push_event(events: &mut Vec<ApiEvent>, event: ApiEvent)
    ensures
        event_views(final(events)@) == event_views(old(events)@).push(event@),
{
    events.push(event);
    assert(event_views(events@) =~= event_views(old(events)@).push(event@));
}

/// How far the reading of a stream has come.
pub enum ReadStatus {
    /// More is to be read.
    Going,
    /// The stream said that it is complete, or reported its own error.
    Finished,
    /// The stream cannot be read on.
    Failed(ApiFailure),
}

/// How far the reading of a stream has come, as a mathematical object.
pub enum StatusView {
    Going,
    Finished,
    Failed(FailureView),
}

impl View for ReadStatus {
    type V = StatusView;

    open spec fn view(&self) -> StatusView {
        match self {
            ReadStatus::Going => StatusView::Going,
            ReadStatus::Finished => StatusView::Finished,
            ReadStatus::Failed(e) => StatusView::Failed(e@),
        }
    }
}

/// What a reader of Anthropic's event stream has gathered.
pub struct AnthropicState {
    pub tool_id: Seq<char>,
    pub tool_name: Seq<char>,
    /// The argument text received in pieces.
    pub tool_input: Seq<char>,
    /// The arguments that came with the start of the block.
    pub initial_input: Option<JsonView>,
    pub input_tokens: u32,
    pub output_tokens: u32,
    pub cache_read_tokens: u32,
    pub cache_creation_tokens: u32,
}

/// What the reading of some input leads to.
pub struct AnthropicStep {
    pub state: AnthropicState,
    pub events: Seq<EventView>,
    pub status: StatusView,
}

impl AnthropicState {
    /// Nothing has been received yet.
    pub open spec fn initial() -> AnthropicState {
        AnthropicState {
            tool_id: Seq::empty(),
            tool_name: Seq::empty(),
            tool_input: Seq::empty(),
            initial_input: None,
            input_tokens: 0,
            output_tokens: 0,
            cache_read_tokens: 0,
            cache_creation_tokens: 0,
        }
    }

    /// The usage counted so far.
    pub open spec fn usage(self) -> UsageView {
        UsageView {
            input_tokens: self.input_tokens,
            output_tokens: self.output_tokens,
            cache_read_tokens: self.cache_read_tokens,
            cache_creation_tokens: self.cache_creation_tokens,
            cost_reports: Seq::empty(),
        }
    }

    /// Reading goes on in this state.
    pub open spec fn goes_on(self) -> AnthropicStep {
        AnthropicStep { state: self, events: Seq::empty(), status: StatusView::Going }
    }

    /// The event is handed out and reading goes on.
    pub open spec fn emits(self, event: EventView) -> AnthropicStep {
        AnthropicStep { state: self, events: seq![event], status: StatusView::Going }
    }

    /// The stream is complete.
    pub open spec fn completes(self) -> AnthropicStep {
        AnthropicStep {
            state: self,
            events: seq![EventView::Usage(self.usage()), EventView::Done],
            status: StatusView::Finished,
        }
    }

    /// The stream cannot be read on.
    pub open spec fn fails(self, message: Seq<char>) -> AnthropicStep {
        AnthropicStep {
            state: self,
            events: Seq::empty(),
            status: StatusView::Failed(FailureView { kind: ApiFailureKind::Other, message }),
        }
    }
}

/// The low 32 bits of a count, or those of `default` where there is no count.
pub open spec fn count_or(count: Option<u64>, default: u64) -> u32 {
    match count {
        Some(n) => n as u32,
        None => default as u32,
    }
}

/// The message for tool arguments that are no JSON.
pub open spec fn bad_tool_arguments(name: Seq<char>, id: Seq<char>) -> Seq<char> {
    "invalid arguments for Anthropic tool call "@ + name + " ("@ + id + ")"@
}

/// What the end of a content block leads to while a tool call is open.
pub open spec fn close_tool_call(s: AnthropicState) -> AnthropicStep {
    let closed = AnthropicState {
        tool_id: Seq::empty(),
        tool_name: Seq::empty(),
        tool_input: Seq::empty(),
        initial_input: None,
        ..s
    };
    if s.tool_input.len() == 0 {
        let input = match s.initial_input {
            Some(v) => v,
            None => JsonView::Object(Map::empty()),
        };
        closed.emits(EventView::ToolUse { id: s.tool_id, name: s.tool_name, input })
    } else {
        match parsed_json(s.tool_input) {
            Ok(input) => closed.emits(
                EventView::ToolUse { id: s.tool_id, name: s.tool_name, input },
            ),
            Err(_) => s.fails(bad_tool_arguments(s.tool_name, s.tool_id)),
        }
    }
}

/// The state after the usage in a `message_start` event.
pub open spec fn counted(s: AnthropicState, usage: JsonView) -> AnthropicState {
    AnthropicState {
        input_tokens: count_or(usage.at("input_tokens"@).uint(), 0),
        output_tokens: count_or(usage.at("output_tokens"@).uint(), 0),
        cache_read_tokens: count_or(usage.at("cache_read_input_tokens"@).uint(), 0),
        cache_creation_tokens: count_or(usage.at("cache_creation_input_tokens"@).uint(), 0),
        ..s
    }
}

/// The text in an optional field, or nothing.
pub open spec fn text_or_empty(text: Option<Seq<char>>) -> Seq<char> {
    match text {
        Some(t) => t,
        None => Seq::empty(),
    }
}

/// What one event of Anthropic's stream leads to.
pub open spec fn anthropic_event(s: AnthropicState, event: JsonView, model: Seq<char>) -> AnthropicStep {
    let kind = text_or_empty(event.at("type"@).text());
    if kind == "message_start"@ {
        match event.at("message"@).get("usage"@) {
            Some(usage) => counted(s, usage).goes_on(),
            None => s.goes_on(),
        }
    } else if kind == "message_delta"@ {
        match event.get("usage"@) {
            Some(usage) => AnthropicState {
                output_tokens: count_or(
                    usage.at("output_tokens"@).uint(),
                    s.output_tokens as u64,
                ),
                ..s
            }.goes_on(),
            None => s.goes_on(),
        }
    } else if kind == "content_block_start"@ {
        let block = event.at("content_block"@);
        if block.at("type"@).text() == Some("tool_use"@) {
            AnthropicState {
                tool_id: text_or_empty(block.at("id"@).text()),
                tool_name: text_or_empty(block.at("name"@).text()),
                tool_input: Seq::empty(),
                initial_input: block.get("input"@),
                ..s
            }.goes_on()
        } else {
            s.goes_on()
        }
    } else if kind == "content_block_delta"@ {
        anthropic_delta(s, event.at("delta"@))
    } else if kind == "content_block_stop"@ && s.tool_name.len() > 0 {
        close_tool_call(s)
    } else if kind == "message_stop"@ {
        s.completes()
    } else if kind == "error"@ {
        AnthropicStep {
            state: s,
            events: seq![EventView::Error(event_failure(event, "anthropic"@, model))],
            status: StatusView::Finished,
        }
    } else {
        s.goes_on()
    }
}

/// The payload of a line of an event stream.
pub open spec fn data_of_line(line: Seq<char>) -> Option<Seq<char>> {
    if "data: "@.is_prefix_of(trimmed(line)) {
        Some(trimmed(line).skip("data: "@.len() as int))
    } else {
        None
    }
}

/// What one line of Anthropic's stream leads to.
pub open spec fn anthropic_line(s: AnthropicState, line: Seq<char>, model: Seq<char>) -> AnthropicStep {
    match data_of_line(line) {
        None => s.goes_on(),
        Some(data) => if data == "[DONE]"@ {
            s.completes()
        } else {
            match parsed_json(data) {
                Ok(event) => anthropic_event(s, event, model),
                Err(_) => s.fails("invalid JSON in Anthropic SSE event"@),
            }
        },
    }
}

/// What lines of Anthropic's stream lead to: they are read in order, up to the first
/// one that ends the reading.
pub open spec fn anthropic_lines(
    s: AnthropicState,
    lines: Seq<Seq<char>>,
    model: Seq<char>,
) -> AnthropicStep
    decreases lines.len(),
{
    if lines.len() == 0 {
        s.goes_on()
    } else {
        let first = anthropic_line(s, lines[0], model);
        if first.status is Going {
            let others = anthropic_lines(first.state, lines.drop_first(), model);
            AnthropicStep { events: first.events + others.events, ..others }
        } else {
            first
        }
    }
}

/// What the bytes received so far lead to. Lines that are no UTF-8 fail as a whole.
pub open spec fn anthropic_bytes(s: AnthropicState, bytes: Seq<u8>, model: Seq<char>) -> AnthropicStep {
    let lines = split_lines(bytes).0;
    if all_text(lines) {
        anthropic_lines(s, line_texts(lines), model)
    } else {
        s.fails(utf8_error(first_bad_line(lines)))
    }
}

/// Reads Anthropic's event stream.
pub struct AnthropicReader {
    lines: Utf8LineDecoder,
    tool_id: String,
    tool_name: String,
    tool_input: String,
    initial_input: Option<Json>,
    input_tokens: u32,
    output_tokens: u32,
    cache_read_tokens: u32,
    cache_creation_tokens: u32,
}

fn low32(n: u64) -> (r: u32)
    ensures
        r == n as u32,
{
    #[verifier::truncate]
    (n as u32)
}

fn count_field(usage: &Json, key: &str, default: u64) -> (r: u32)
    ensures
        r == count_or(usage@.at(key@).uint(), default),
{
    match usage.uint_at(key) {
        Some(n) => low32(n),
        None => low32(default),
    }
}

fn text_field(value: &Json, key: &str) -> (r: String)
    ensures
        r@ == text_or_empty(value@.at(key@).text()),
{
    match value.text_at(key) {
        Some(t) => t.to_owned(),
        None => String::new(),
    }
}

/// The payload of a line of an event stream.
pub fn line_data(line: &str) -> (r: Option<&str>)
    ensures
        r is Some <==> data_of_line(line@) is Some,
        r matches Some(data) ==> data_of_line(line@) == Some(data@),
{
    text::strip_prefix(text::trim(line), "data: ")
}

impl AnthropicReader {
    /// What the reader has gathered.
    pub closed spec fn state(&self) -> AnthropicState {
        AnthropicState {
            tool_id: self.tool_id@,
            tool_name: self.tool_name@,
            tool_input: self.tool_input@,
            initial_input: match self.initial_input {
                Some(v) => Some(v@),
                None => None,
            },
            input_tokens: self.input_tokens,
            output_tokens: self.output_tokens,
            cache_read_tokens: self.cache_read_tokens,
            cache_creation_tokens: self.cache_creation_tokens,
        }
    }

    /// The bytes after the last complete line.
    pub closed spec fn pending(&self) -> Seq<u8> {
        self.lines@
    }

    /// A reader that has received nothing.
    pub fn new() -> (r: AnthropicReader)
        ensures
            r.state() == AnthropicState::initial(),
            r.pending() == Seq::<u8>::empty(),
    {
        AnthropicReader {
            lines: Utf8LineDecoder::default(),
            tool_id: String::new(),
            tool_name: String::new(),
            tool_input: String::new(),
            initial_input: None,
            input_tokens: 0,
            output_tokens: 0,
            cache_read_tokens: 0,
            cache_creation_tokens: 0,
        }
    }

    fn usage(&self) -> (r: Usage)
        ensures
            r@ == self.state().usage(),
    {
        let none: Vec<Json> = Vec::new();
        assert(json_views(none@) =~= Seq::empty());
        Usage {
            input_tokens: self.input_tokens,
            output_tokens: self.output_tokens,
            cache_read_tokens: self.cache_read_tokens,
            cache_creation_tokens: self.cache_creation_tokens,
            cost_reports: none,
        }
    }

    fn complete(&self, events: &mut Vec<ApiEvent>) -> (r: ReadStatus)
        ensures
            event_views(final(events)@) == event_views(old(events)@) + self.state().completes().events,
            r@ == self.state().completes().status,
    {
        push_event(events, ApiEvent::Usage(self.usage()));
        push_event(events, ApiEvent::Done);
        assert(event_views(events@) =~= event_views(old(events)@)
            + self.state().completes().events);
        ReadStatus::Finished
    }

    fn close_tool_call(&mut self, events: &mut Vec<ApiEvent>) -> (r: ReadStatus)
        ensures
            final(self).state() == close_tool_call(old(self).state()).state,
            final(self).pending() == old(self).pending(),
            event_views(final(events)@) == event_views(old(events)@) + close_tool_call(
                old(self).state(),
            ).events,
            r@ == close_tool_call(old(self).state()).status,
    {
        let input = if self.tool_input.as_str().is_empty() {
            match &self.initial_input {
                Some(v) => v.duplicate(),
                None => {
                    let none: Vec<(String, Json)> = Vec::new();
                    Json::Object(none)
                },
            }
        } else {
            match Json::parse(self.tool_input.as_str()) {
                Ok(v) => v,
                Err(_) => {
                    let mut message = "invalid arguments for Anthropic tool call ".to_owned();
                    message.append(self.tool_name.as_str());
                    message.append(" (");
                    message.append(self.tool_id.as_str());
                    message.append(")");
                    assert(event_views(events@) =~= event_views(old(events)@) + Seq::empty());
                    return ReadStatus::Failed(ApiFailure::other(message));
                },
            }
        };
        let event = ApiEvent::ToolUse {
            id: self.tool_id.clone(),
            name: self.tool_name.clone(),
            input,
        };
        assert(event@ == close_tool_call(old(self).state()).events[0]);
        push_event(events, event);
        self.tool_name = String::new();
        self.tool_input = String::new();
        self.tool_id = String::new();
        self.initial_input = None;
        assert(event_views(events@) =~= event_views(old(events)@) + close_tool_call(
            old(self).state(),
        ).events);
        ReadStatus::Going
    }

    fn start_block(&mut self, event: &Json)
        ensures
            ({
                let block = event@.at("content_block"@);
                final(self).state() == if block.at("type"@).text() == Some("tool_use"@) {
                    AnthropicState {
                        tool_id: text_or_empty(block.at("id"@).text()),
                        tool_name: text_or_empty(block.at("name"@).text()),
                        tool_input: Seq::empty(),
                        initial_input: block.get("input"@),
                        ..old(self).state()
                    }
                } else {
                    old(self).state()
                }
            }),
            final(self).pending() == old(self).pending(),
    {
        match event.get("content_block") {
            Some(block) => {
                let is_tool = match block.text_at("type") {
                    Some(t) => text::same(t, "tool_use"),
                    None => false,
                };
                if is_tool {
                    self.tool_id = text_field(block, "id");
                    self.tool_name = text_field(block, "name");
                    self.tool_input = String::new();
                    self.initial_input = match block.get("input") {
                        Some(v) => Some(v.duplicate()),
                        None => None,
                    };
                }
            },
            None => {},
        }
    }

    fn take_delta(&mut self, event: &Json, events: &mut Vec<ApiEvent>)
        ensures
            ({
                let step = anthropic_delta(old(self).state(), event@.at("delta"@));
                &&& final(self).state() == step.state
                &&& event_views(final(events)@) == event_views(old(events)@) + step.events
                &&& step.status is Going
            }),
            final(self).pending() == old(self).pending(),
    {
        assert(event_views(events@) =~= event_views(old(events)@) + Seq::empty());
        match event.get("delta") {
            Some(delta) => {
                let kind = text_field(delta, "type");
                if text::same(kind.as_str(), "text_delta") {
                    match delta.text_at("text") {
                        Some(t) => {
                            push_event(events, ApiEvent::Text(t.to_owned()));
                            assert(event_views(events@) =~= event_views(old(events)@) + seq![
                                EventView::Text(t@),
                            ]);
                        },
                        None => {},
                    }
                } else if text::same(kind.as_str(), "input_json_delta") {
                    match delta.text_at("partial_json") {
                        Some(t) => {
                            self.tool_input.append(t);
                        },
                        None => {},
                    }
                }
            },
            None => {
                proof {
                    reveal_strlit("text_delta");
                    reveal_strlit("input_json_delta");
                    assert("text_delta"@.len() == 10);
                    assert("input_json_delta"@.len() == 16);
                }
            },
        }
    }

    /// Takes in one event of the stream.
    pub fn take_event(&mut self, event: &Json, model: &str, events: &mut Vec<ApiEvent>) -> (r:
        ReadStatus)
        ensures
            ({
                let step = anthropic_event(old(self).state(), event@, model@);
                &&& final(self).state() == step.state
                &&& event_views(final(events)@) == event_views(old(events)@) + step.events
                &&& r@ == step.status
            }),
            final(self).pending() == old(self).pending(),
    {
        assert(event_views(events@) =~= event_views(old(events)@) + Seq::empty());
        let kind = text_field(event, "type");
        if text::same(kind.as_str(), "message_start") {
            let usage = match event.get("message") {
                Some(message) => message.get("usage"),
                None => None,
            };
            match usage {
                Some(usage) => {
                    self.input_tokens = count_field(usage, "input_tokens", 0);
                    self.output_tokens = count_field(usage, "output_tokens", 0);
                    self.cache_read_tokens = count_field(usage, "cache_read_input_tokens", 0);
                    self.cache_creation_tokens = count_field(
                        usage,
                        "cache_creation_input_tokens",
                        0,
                    );
                },
                None => {},
            }
            ReadStatus::Going
        } else if text::same(kind.as_str(), "message_delta") {
            match event.get("usage") {
                Some(usage) => {
                    self.output_tokens = count_field(
                        usage,
                        "output_tokens",
                        self.output_tokens as u64,
                    );
                },
                None => {},
            }
            ReadStatus::Going
        } else if text::same(kind.as_str(), "content_block_start") {
            self.start_block(event);
            ReadStatus::Going
        } else if text::same(kind.as_str(), "content_block_delta") {
            self.take_delta(event, events);
            ReadStatus::Going
        } else if text::same(kind.as_str(), "content_block_stop")
            && !self.tool_name.as_str().is_empty() {
            self.close_tool_call(events)
        } else if text::same(kind.as_str(), "message_stop") {
            self.complete(events)
        } else if text::same(kind.as_str(), "error") {
            let failure = stream_error(event, "anthropic", model);
            push_event(events, ApiEvent::Error(failure));
            assert(event_views(events@) =~= event_views(old(events)@) + seq![
                EventView::Error(failure@),
            ]);
            ReadStatus::Finished
        } else {
            ReadStatus::Going
        }
    }

    /// Takes in one line of the stream.
    pub fn take_line(&mut self, line: &str, model: &str, events: &mut Vec<ApiEvent>) -> (r:
        ReadStatus)
        ensures
            ({
                let step = anthropic_line(old(self).state(), line@, model@);
                &&& final(self).state() == step.state
                &&& event_views(final(events)@) == event_views(old(events)@) + step.events
                &&& r@ == step.status
            }),
            final(self).pending() == old(self).pending(),
    {
        assert(event_views(events@) =~= event_views(old(events)@) + Seq::empty());
        match line_data(line) {
            None => ReadStatus::Going,
            Some(data) => if text::same(data, "[DONE]") {
                self.complete(events)
            } else {
                match Json::parse(data) {
                    Ok(event) => self.take_event(&event, model, events),
                    Err(_) => ReadStatus::Failed(
                        ApiFailure::other("invalid JSON in Anthropic SSE event".to_owned()),
                    ),
                }
            },
        }
    }

    /// Takes in a chunk of the stream and hands out the events that it completes.
    pub fn read_sse_stream(&mut self, chunk: &[u8], model: &str) -> (r: (Vec<ApiEvent>, ReadStatus))
        ensures
            ({
                let bytes = old(self).pending() + chunk@;
                let step = anthropic_bytes(old(self).state(), bytes, model@);
                &&& final(self).state() == step.state
                &&& event_views(r.0@) == step.events
                &&& r.1@ == step.status
                &&& all_text(split_lines(bytes).0) ==> final(self).pending() == split_lines(
                    bytes,
                ).1
            }),
    {
        let mut events: Vec<ApiEvent> = Vec::new();
        assert(event_views(events@) =~= Seq::empty());
        let ghost start = self.state();
        match self.lines.push(chunk) {
            Err(e) => (events, ReadStatus::Failed(ApiFailure::other(e))),
            Ok(lines) => {
                let ghost all = texts(lines@);
                let ghost whole = anthropic_lines(start, all, model@);
                let ghost left = self.pending();
                let mut i: usize = 0;
                assert(all.skip(0) =~= all);
                assert(Seq::<EventView>::empty() + whole.events =~= whole.events);
                while i < lines.len()
                    invariant
                        i <= lines@.len(),
                        all == texts(lines@),
                        self.pending() == left,
                        ({
                            let others = anthropic_lines(self.state(), all.skip(i as int), model@);
                            whole == (AnthropicStep {
                                events: event_views(events@) + others.events,
                                ..others
                            })
                        }),
                        whole == anthropic_lines(start, all, model@),
                        start == old(self).state(),
                        all == line_texts(split_lines(old(self).pending() + chunk@).0),
                        all_text(split_lines(old(self).pending() + chunk@).0),
                        left == split_lines(old(self).pending() + chunk@).1,
                    decreases lines.len() - i,
                {
                    let ghost before = event_views(events@);
                    let ghost here = self.state();
                    let status = self.take_line(lines[i].as_str(), model, &mut events);
                    proof {
                        let tail = all.skip(i as int);
                        assert(tail[0] == lines@[i as int]@);
                        assert(tail.drop_first() =~= all.skip(i + 1));
                        let first = anthropic_line(here, tail[0], model@);
                        let others = anthropic_lines(first.state, tail.drop_first(), model@);
                        assert(before + (first.events + others.events) =~= (before + first.events)
                            + others.events);
                    }
                    match status {
                        ReadStatus::Going => {},
                        _ => {
                            return (events, status);
                        },
                    }
                    i = i + 1;
                }
                assert(event_views(events@) + Seq::<EventView>::empty() =~= event_views(events@));
                (events, ReadStatus::Going)
            },
        }
    }

    /// The error of a stream that ends before it said that it is complete.
    pub fn end_of_stream(&self) -> (r: String)
        ensures
            r@ == if valid_utf8(self.pending()) {
                "stream ended before message_stop"@
            } else {
                utf8_error(self.pending())
            },
    {
        match self.lines.finish() {
            Ok(()) => "stream ended before message_stop".to_owned(),
            Err(e) => e,
        }
    }
}

/// What a delta of a content block leads to.
pub open spec fn anthropic_delta(s: AnthropicState, delta: JsonView) -> AnthropicStep {
    let kind = text_or_empty(delta.at("type"@).text());
    if kind == "text_delta"@ {
        match delta.at("text"@).text() {
            Some(t) => s.emits(EventView::Text(t)),
            None => s.goes_on(),
        }
    } else if kind == "input_json_delta"@ {
        match delta.at("partial_json"@).text() {
            Some(t) => AnthropicState { tool_input: s.tool_input + t, ..s }.goes_on(),
            None => s.goes_on(),
        }
    } else {
        s.goes_on()
    }
}


/// Lines after lines.
pub proof fn lemma_lines_in_turn(s: AnthropicState, a: Seq<Seq<char>>, b: Seq<Seq<char>>, model: Seq<char>)
    requires
        anthropic_lines(s, a, model).status is Going,
    ensures
        ({
            let first = anthropic_lines(s, a, model);
            let second = anthropic_lines(first.state, b, model);
            anthropic_lines(s, a + b, model) == (AnthropicStep {
                events: first.events + second.events,
                ..second
            })
        }),
    decreases a.len(),
{
    if a.len() == 0 {
        assert(a + b =~= b);
        let second = anthropic_lines(s, b, model);
        assert(Seq::<EventView>::empty() + second.events =~= second.events);
    } else {
        let one = anthropic_line(s, a[0], model);
        lemma_lines_in_turn(one.state, a.drop_first(), b, model);
        assert((a + b).drop_first() =~= a.drop_first() + b);
        assert((a + b)[0] == a[0]);
        let first = anthropic_lines(one.state, a.drop_first(), model);
        let second = anthropic_lines(first.state, b, model);
        assert(one.events + (first.events + second.events) =~= (one.events + first.events)
            + second.events);
    }
}

/// Where Anthropic's stream is cut into chunks makes no difference: as long as its
/// lines are UTF-8 and it has not ended, two chunks in turn lead to the events, the
/// state and the status that the two at once lead to.
pub proof fn law_anthropic_chunks(s: AnthropicState, a: Seq<u8>, b: Seq<u8>, model: Seq<char>)
    requires
        all_text(split_lines(a + b).0),
        anthropic_bytes(s, a, model).status is Going,
    ensures
        ({
            let first = anthropic_bytes(s, a, model);
            let second = anthropic_bytes(first.state, split_lines(a).1 + b, model);
            anthropic_bytes(s, a + b, model) == (AnthropicStep {
                events: first.events + second.events,
                ..second
            })
        }),
{
    law_chunks(a, b);
    let lines_a = split_lines(a).0;
    let lines_b = split_lines(split_lines(a).1 + b).0;
    let all = split_lines(a + b).0;
    assert forall|i: int| 0 <= i < lines_a.len() implies valid_utf8(#[trigger] lines_a[i]) by {
        assert(all[i] == lines_a[i]);
    }
    assert forall|i: int| 0 <= i < lines_b.len() implies valid_utf8(#[trigger] lines_b[i]) by {
        assert(all[lines_a.len() + i] == lines_b[i]);
    }
    assert(line_texts(all) =~= line_texts(lines_a) + line_texts(lines_b));
    lemma_lines_in_turn(s, line_texts(lines_a), line_texts(lines_b), model);
}

} // verus!
