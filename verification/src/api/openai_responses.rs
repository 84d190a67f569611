//! The OpenAI Responses API: requests, the cursor that continues a response, and the
//! reader of the event stream.

use vstd::prelude::*;
use vstd::string::StringExecFns;
use crate::api::diagnostics::{decode_lossy, lossy_text};
use crate::api::error::{event_failure, stream_error, str_option, ApiFailure, ApiFailureKind, FailureView};
use crate::api::lines::{byte_views, law_chunks, split_lines, take_lines};
use crate::api::openai_compat::{
    bearer_headers, json_headers, make_plain_message, object1, one_field, plain_message, push_json,
    strip_trailing_slashes, without_trailing_slashes,
};
use crate::api::stream::{
    count_or, event_views, push_event, text_or_empty, ApiEvent, EventView, ReadStatus, StatusView,
};
use crate::api::types::{
    block_views, message_views, text_option, tool_views, BlockView, ContentBlock, ContentView,
    Message, MessageContent, MessageView, ToolDefinition, ToolDefinitionView, Usage, UsageView,
};
use crate::json::{
    json_views, parsed_json, push_field, rendered_json, unsigned_number, Json, JsonView,
};
use crate::text;
use crate::text::{joined, pair_views, texts, trimmed_start};

verus! {

/// The texts among blocks, in order.
pub open spec fn block_texts(blocks: Seq<BlockView>) -> Seq<Seq<char>>
    decreases blocks.len(),
{
    if blocks.len() == 0 {
        Seq::empty()
    } else {
        match blocks.last() {
            BlockView::Text { text } => block_texts(blocks.drop_last()).push(text),
            _ => block_texts(blocks.drop_last()),
        }
    }
}

/// A tool call told in words.
pub open spec fn told_call(name: Seq<char>, input: JsonView) -> Seq<char> {
    "[Tool call: "@ + name + "("@ + rendered_json(input) + ")]"@
}

/// A tool result told in words.
pub open spec fn told_result(tool_use_id: Seq<char>, content: Seq<char>) -> Seq<char> {
    "[Tool result for "@ + tool_use_id + ": "@ + content + "]"@
}

/// The output of a function call.
pub open spec fn call_output(tool_use_id: Seq<char>, content: Seq<char>) -> JsonView {
    JsonView::Object(
        map![
            "type"@ => JsonView::Text("function_call_output"@),
            "call_id"@ => JsonView::Text(tool_use_id),
            "output"@ => JsonView::Text(content),
        ],
    )
}

/// The input items that one block becomes. In a continuation the provider has the calls
/// and takes their outputs; in a conversation sent afresh both are told in words.
pub open spec fn block_input(block: BlockView, continuation: bool) -> Seq<JsonView> {
    match block {
        BlockView::ToolUse { id, name, input } => if continuation {
            Seq::empty()
        } else {
            seq![plain_message("assistant"@, JsonView::Text(told_call(name, input)))]
        },
        BlockView::ToolResult { tool_use_id, content, is_error } => if continuation {
            seq![call_output(tool_use_id, content)]
        } else {
            seq![plain_message("user"@, JsonView::Text(told_result(tool_use_id, content)))]
        },
        _ => Seq::empty(),
    }
}

/// The input items that the calls and results among blocks become, in order.
pub open spec fn blocks_input(blocks: Seq<BlockView>, continuation: bool) -> Seq<JsonView>
    decreases blocks.len(),
{
    if blocks.len() == 0 {
        Seq::empty()
    } else {
        blocks_input(blocks.drop_last(), continuation) + block_input(blocks.last(), continuation)
    }
}

/// The input items that one message becomes.
pub open spec fn message_input(message: MessageView, continuation: bool) -> Seq<JsonView> {
    match message.content {
        ContentView::Text(text) => seq![plain_message(message.role, JsonView::Text(text))],
        ContentView::Blocks(blocks) => {
            let text = joined(block_texts(blocks), "\n"@);
            let spoken = if text.len() > 0 {
                seq![plain_message(message.role, JsonView::Text(text))]
            } else {
                Seq::empty()
            };
            spoken + blocks_input(blocks, continuation)
        },
    }
}

/// The input items that a conversation becomes.
pub open spec fn conversation_input(messages: Seq<MessageView>, continuation: bool) -> Seq<JsonView>
    decreases messages.len(),
{
    if messages.len() == 0 {
        Seq::empty()
    } else {
        conversation_input(messages.drop_last(), continuation) + message_input(
            messages.last(),
            continuation,
        )
    }
}

fn collect_texts(blocks: &Vec<ContentBlock>) -> (r: Vec<String>)
    ensures
        texts(r@) == block_texts(block_views(blocks@)),
{
    let mut out: Vec<String> = Vec::new();
    assert(texts(out@) =~= Seq::empty());
    let mut i: usize = 0;
    while i < blocks.len()
        invariant
            i <= blocks@.len(),
            texts(out@) == block_texts(block_views(blocks@).take(i as int)),
        decreases blocks.len() - i,
    {
        let ghost part = block_views(blocks@).take(i + 1);
        assert(part.drop_last() =~= block_views(blocks@).take(i as int));
        assert(part.last() == blocks@[i as int]@);
        match &blocks[i] {
            ContentBlock::Text { text } => {
                let ghost before = texts(out@);
                out.push(text.clone());
                assert(texts(out@) =~= before.push(text@));
            },
            _ => {},
        }
        i = i + 1;
    }
    assert(block_views(blocks@).take(blocks@.len() as int) =~= block_views(blocks@));
    out
}

fn push_block_input(input: &mut Vec<Json>, block: &ContentBlock, continuation: bool)
    ensures
        json_views(final(input)@) == json_views(old(input)@) + block_input(block@, continuation),
{
    match block {
        ContentBlock::ToolUse { id, name, input: arguments } => {
            if !continuation {
                let mut told = "[Tool call: ".to_owned();
                told.append(name.as_str());
                told.append("(");
                told.append(arguments.render().as_str());
                told.append(")]");
                push_json(input, make_plain_message("assistant", Json::Text(told)));
            }
        },
        ContentBlock::ToolResult { tool_use_id, content, is_error } => {
            if continuation {
                let mut fields: Vec<(String, Json)> = Vec::new();
                push_field(&mut fields, "type", Json::text("function_call_output"));
                push_field(&mut fields, "call_id", Json::text(tool_use_id.as_str()));
                push_field(&mut fields, "output", Json::text(content.as_str()));
                push_json(input, Json::Object(fields));
            } else {
                let mut told = "[Tool result for ".to_owned();
                told.append(tool_use_id.as_str());
                told.append(": ");
                told.append(content.as_str());
                told.append("]");
                push_json(input, make_plain_message("user", Json::Text(told)));
            }
        },
        _ => {},
    }
    assert(json_views(input@) =~= json_views(old(input)@) + block_input(block@, continuation));
}

fn push_message_input(input: &mut Vec<Json>, message: &Message, continuation: bool)
    ensures
        json_views(final(input)@) == json_views(old(input)@) + message_input(
            message@,
            continuation,
        ),
{
    let ghost start = json_views(input@);
    match &message.content {
        MessageContent::Text(text) => {
            push_json(input, make_plain_message(message.role.as_str(), Json::text(text.as_str())));
            assert(json_views(input@) =~= start + message_input(message@, continuation));
        },
        MessageContent::Blocks(blocks) => {
            let found = collect_texts(blocks);
            let text = text::join(found.as_slice(), "\n");
            if !text.as_str().is_empty() {
                push_json(
                    input,
                    make_plain_message(message.role.as_str(), Json::text(text.as_str())),
                );
            }
            let ghost spoken = json_views(input@);
            assert(spoken + blocks_input(block_views(blocks@).take(0), continuation) =~= spoken);
            let mut i: usize = 0;
            while i < blocks.len()
                invariant
                    i <= blocks@.len(),
                    json_views(input@) == spoken + blocks_input(
                        block_views(blocks@).take(i as int),
                        continuation,
                    ),
                decreases blocks.len() - i,
            {
                let ghost part = block_views(blocks@).take(i + 1);
                assert(part.drop_last() =~= block_views(blocks@).take(i as int));
                assert(part.last() == blocks@[i as int]@);
                push_block_input(input, &blocks[i], continuation);
                assert(json_views(input@) =~= spoken + blocks_input(part, continuation));
                i = i + 1;
            }
            assert(block_views(blocks@).take(blocks@.len() as int) =~= block_views(blocks@));
            assert(json_views(input@) =~= start + message_input(message@, continuation));
        },
    }
}

/// Converts messages to input items of the Responses API.
pub fn convert_messages(messages: &[Message], continuation: bool) -> (r: Vec<Json>)
    ensures
        json_views(r@) == conversation_input(message_views(messages@), continuation),
{
    let mut input: Vec<Json> = Vec::new();
    assert(json_views(input@) =~= Seq::empty());
    let mut i: usize = 0;
    while i < messages.len()
        invariant
            i <= messages@.len(),
            json_views(input@) == conversation_input(
                message_views(messages@).take(i as int),
                continuation,
            ),
        decreases messages.len() - i,
    {
        let ghost part = message_views(messages@).take(i + 1);
        assert(part.drop_last() =~= message_views(messages@).take(i as int));
        assert(part.last() == messages@[i as int]@);
        push_message_input(&mut input, &messages[i], continuation);
        i = i + 1;
    }
    assert(message_views(messages@).take(messages@.len() as int) =~= message_views(messages@));
    input
}

/// A tool in the shape of the Responses API.
pub open spec fn response_tool(tool: ToolDefinitionView) -> JsonView {
    JsonView::Object(
        map![
            "type"@ => JsonView::Text("function"@),
            "name"@ => JsonView::Text(tool.name),
            "description"@ => JsonView::Text(tool.description),
            "parameters"@ => tool.input_schema,
            "strict"@ => JsonView::Bool(false),
        ],
    )
}

/// Tools in the shape of the Responses API.
pub open spec fn response_tools(tools: Seq<ToolDefinitionView>) -> Seq<JsonView> {
    Seq::new(tools.len(), |i: int| response_tool(tools[i]))
}

/// Converts tool definitions to the shape of the Responses API.
pub fn convert_tools(tools: &[ToolDefinition]) -> (r: Vec<Json>)
    ensures
        json_views(r@) == response_tools(tool_views(tools@)),
{
    let mut out: Vec<Json> = Vec::new();
    let mut i: usize = 0;
    while i < tools.len()
        invariant
            i == out@.len(),
            i <= tools@.len(),
            forall|k: int| 0 <= k < i ==> out@[k]@ == response_tool(tools@[k]@),
        decreases tools.len() - i,
    {
        let mut fields: Vec<(String, Json)> = Vec::new();
        push_field(&mut fields, "type", Json::text("function"));
        push_field(&mut fields, "name", Json::text(tools[i].name.as_str()));
        push_field(&mut fields, "description", Json::text(tools[i].description.as_str()));
        push_field(&mut fields, "parameters", tools[i].input_schema.duplicate());
        push_field(&mut fields, "strict", Json::Bool(false));
        out.push(Json::Object(fields));
        i = i + 1;
    }
    assert(json_views(out@) =~= response_tools(tool_views(tools@)));
    out
}

/// Where the provider keeps the conversation: under which response, and how many
/// messages of the history it has. The count is that of the messages that were sent,
/// never a guess at what a turn will append.
pub struct ResponseCursor {
    pub response_id: Option<String>,
    pub sent_message_count: usize,
}

/// A cursor as a mathematical object.
pub struct CursorView {
    pub response_id: Option<Seq<char>>,
    pub sent_message_count: nat,
}

impl View for ResponseCursor {
    type V = CursorView;

    open spec fn view(&self) -> CursorView {
        CursorView {
            response_id: text_option(self.response_id),
            sent_message_count: self.sent_message_count as nat,
        }
    }
}

impl Default for ResponseCursor {
    fn default() -> (r: ResponseCursor)
        ensures
            r@ == CursorView::none(),
    {
        ResponseCursor { response_id: None, sent_message_count: 0 }
    }
}

impl CursorView {
    /// The provider keeps nothing.
    pub open spec fn none() -> CursorView {
        CursorView { response_id: None, sent_message_count: 0 }
    }

    /// Whether a history goes on from this cursor: it has grown beyond what was sent.
    pub open spec fn continues(self, messages: Seq<MessageView>) -> bool {
        self.response_id is Some && self.sent_message_count < messages.len()
    }

    /// The input items of the next request.
    pub open spec fn input(self, messages: Seq<MessageView>) -> Seq<JsonView> {
        if self.continues(messages) {
            conversation_input(messages.skip(self.sent_message_count as int), true)
        } else {
            conversation_input(messages, false)
        }
    }

    /// The response that the next request goes on from.
    pub open spec fn previous(self, messages: Seq<MessageView>) -> Option<Seq<char>> {
        if self.continues(messages) {
            self.response_id
        } else {
            None
        }
    }
}

/// No message is lost: what the next request does not send is what the response that it
/// goes on from has already got, and a request that goes on sends at least one message.
pub proof fn law_no_message_lost(cursor: CursorView, messages: Seq<MessageView>)
    ensures
        cursor.previous(messages) is None ==> cursor.input(messages) == conversation_input(
            messages,
            false,
        ),
        cursor.previous(messages) is Some ==> ({
            let fresh = messages.skip(cursor.sent_message_count as int);
            &&& fresh.len() > 0
            &&& messages == messages.take(cursor.sent_message_count as int) + fresh
            &&& cursor.input(messages) == conversation_input(fresh, true)
        }),
{
    if cursor.continues(messages) {
        let fresh = messages.skip(cursor.sent_message_count as int);
        assert(messages =~= messages.take(cursor.sent_message_count as int) + fresh);
    }
}

/// However many messages a round appends, a request after a completed response sends
/// exactly those.
pub proof fn law_only_new_messages(
    response_id: Seq<char>,
    sent: Seq<MessageView>,
    appended: Seq<MessageView>,
)
    requires
        appended.len() > 0,
    ensures
        ({
            let cursor = CursorView {
                response_id: Some(response_id),
                sent_message_count: sent.len(),
            };
            &&& cursor.previous(sent + appended) == Some(response_id)
            &&& cursor.input(sent + appended) == conversation_input(appended, true)
        }),
{
    assert((sent + appended).skip(sent.len() as int) =~= appended);
}

/// A provider that speaks the OpenAI Responses API.
pub struct OpenAIResponsesProvider {
    pub api_key: String,
    pub model: String,
    pub base_url: String,
    pub provider_name: String,
    pub reasoning_effort: Option<String>,
    pub cursor: ResponseCursor,
}

/// The body of a request.
pub open spec fn response_body(
    model: Seq<char>,
    reasoning_effort: Option<Seq<char>>,
    cursor: CursorView,
    messages: Seq<MessageView>,
    system: Seq<char>,
    tools: Seq<ToolDefinitionView>,
    max_tokens: u32,
) -> JsonView {
    let plain =
        map![
        "model"@ => JsonView::Text(model),
        "instructions"@ => JsonView::Text(system),
        "input"@ => JsonView::Array(cursor.input(messages)),
        "max_output_tokens"@ => JsonView::Number(unsigned_number(max_tokens as u64)),
        "stream"@ => JsonView::Bool(true),
        "store"@ => JsonView::Bool(true),
    ];
    let with_previous = match cursor.previous(messages) {
        Some(id) => plain.insert("previous_response_id"@, JsonView::Text(id)),
        None => plain,
    };
    let with_tools = if tools.len() > 0 {
        with_previous.insert("tools"@, JsonView::Array(response_tools(tools)))
    } else {
        with_previous
    };
    JsonView::Object(
        match reasoning_effort {
            Some(effort) => with_tools.insert(
                "reasoning"@,
                object1("effort"@, JsonView::Text(effort)),
            ),
            None => with_tools,
        },
    )
}

impl OpenAIResponsesProvider {
    /// A provider at the given URL, with no response to go on from.
    pub fn new(
        base_url: &str,
        api_key: &str,
        model: &str,
        name: &str,
        reasoning_effort: Option<&str>,
    ) -> (r: OpenAIResponsesProvider)
        ensures
            r.api_key@ == api_key@,
            r.model@ == model@,
            r.base_url@ == without_trailing_slashes(base_url@),
            r.provider_name@ == name@,
            text_option(r.reasoning_effort) == str_option(reasoning_effort),
            r.cursor@ == CursorView::none(),
    {
        OpenAIResponsesProvider {
            api_key: api_key.to_owned(),
            model: model.to_owned(),
            base_url: strip_trailing_slashes(base_url).to_owned(),
            provider_name: name.to_owned(),
            reasoning_effort: match reasoning_effort {
                Some(e) => Some(e.to_owned()),
                None => None,
            },
            cursor: ResponseCursor::default(),
        }
    }

    /// The name of the provider.
    pub fn name(&self) -> (r: &str)
        ensures
            r@ == self.provider_name@,
    {
        self.provider_name.as_str()
    }

    /// Changes the model. There is no response of that model to go on from.
    pub fn set_model(&mut self, model: &str)
        ensures
            final(self).model@ == model@,
            final(self).cursor@ == CursorView::none(),
            *final(self) == (OpenAIResponsesProvider {
                model: final(self).model,
                cursor: final(self).cursor,
                ..*old(self)
            }),
    {
        self.model = model.to_owned();
        self.reset_session();
    }

    /// Forgets the response to go on from.
    pub fn reset_session(&mut self)
        ensures
            final(self).cursor@ == CursorView::none(),
            *final(self) == (OpenAIResponsesProvider { cursor: final(self).cursor, ..*old(self) }),
    {
        self.cursor = ResponseCursor::default();
    }

    /// The URL that requests go to.
    pub fn request_url(&self) -> (r: String)
        ensures
            r@ == self.base_url@ + "/responses"@,
    {
        let mut url = self.base_url.clone();
        url.append("/responses");
        url
    }

    /// The headers of requests.
    pub fn request_headers(&self) -> (r: Vec<(String, String)>)
        ensures
            pair_views(r@) == bearer_headers(self.api_key@),
    {
        json_headers(self.api_key.as_str())
    }

    /// The input items of the next request, the response that it goes on from, and the
    /// number of messages that it covers. If the history has not grown since the last
    /// response, or has shrunk, the whole conversation is sent again.
    pub fn build_input(&self, messages: &[Message]) -> (r: (Vec<Json>, Option<String>, usize))
        ensures
            json_views(r.0@) == self.cursor@.input(message_views(messages@)),
            text_option(r.1) == self.cursor@.previous(message_views(messages@)),
            r.2 == messages@.len(),
    {
        match &self.cursor.response_id {
            Some(id) => {
                if self.cursor.sent_message_count < messages.len() {
                    let fresh = vstd::slice::slice_subrange(
                        messages,
                        self.cursor.sent_message_count,
                        messages.len(),
                    );
                    assert(message_views(fresh@) =~= message_views(messages@).skip(
                        self.cursor.sent_message_count as int,
                    ));
                    return (convert_messages(fresh, true), Some(id.clone()), messages.len());
                }
            },
            None => {},
        }
        (convert_messages(messages, false), None, messages.len())
    }

    /// The body of a request, and the number of messages that it covers.
    pub fn request_body(
        &self,
        messages: &[Message],
        system: &str,
        tools: &[ToolDefinition],
        max_tokens: u32,
    ) -> (r: (Json, usize))
        ensures
            r.0@ == response_body(
                self.model@,
                text_option(self.reasoning_effort),
                self.cursor@,
                message_views(messages@),
                system@,
                tool_views(tools@),
                max_tokens,
            ),
            r.1 == messages@.len(),
    {
        let (input, previous, sent) = self.build_input(messages);
        let mut body: Vec<(String, Json)> = Vec::new();
        push_field(&mut body, "model", Json::text(self.model.as_str()));
        push_field(&mut body, "instructions", Json::text(system));
        push_field(&mut body, "input", Json::Array(input));
        push_field(&mut body, "max_output_tokens", Json::uint(max_tokens as u64));
        push_field(&mut body, "stream", Json::Bool(true));
        push_field(&mut body, "store", Json::Bool(true));
        match previous {
            Some(id) => {
                push_field(&mut body, "previous_response_id", Json::Text(id));
            },
            None => {},
        }
        if tools.len() > 0 {
            push_field(&mut body, "tools", Json::Array(convert_tools(tools)));
        }
        match &self.reasoning_effort {
            Some(effort) => {
                push_field(
                    &mut body,
                    "reasoning",
                    one_field("effort", Json::text(effort.as_str())),
                );
            },
            None => {},
        }
        (Json::Object(body), sent)
    }
}

/// The usage in a completed response. Only a number counts as a report of the charge.
pub open spec fn response_usage(usage: JsonView) -> UsageView {
    let details = usage.at("input_tokens_details"@);
    UsageView {
        input_tokens: count_or(usage.at("input_tokens"@).uint(), 0),
        output_tokens: count_or(usage.at("output_tokens"@).uint(), 0),
        cache_read_tokens: count_or(details.at("cached_tokens"@).uint(), 0),
        cache_creation_tokens: count_or(details.at("cache_write_tokens"@).uint(), 0),
        cost_reports: if usage.at("cost"@) is Number {
            seq![usage.at("cost"@)]
        } else {
            Seq::empty()
        },
    }
}

/// An unclassified error.
pub open spec fn plain_error(message: Seq<char>) -> EventView {
    EventView::Error(FailureView { kind: ApiFailureKind::Other, message })
}

/// What a finished function call leads to.
pub open spec fn function_call_event(item: JsonView) -> EventView {
    match item.at("call_id"@).text() {
        None => plain_error("OpenAI function call omitted call_id"@),
        Some(id) => match item.at("name"@).text() {
            None => plain_error("OpenAI function call omitted name"@),
            Some(name) => match item.at("arguments"@).text() {
                Some(arguments) => match parsed_json(arguments) {
                    Ok(input) => EventView::ToolUse { id, name, input },
                    Err(_) => plain_error(
                        "OpenAI function "@ + name + " returned invalid arguments"@,
                    ),
                },
                None => plain_error("OpenAI function "@ + name + " returned invalid arguments"@),
            },
        },
    }
}

/// Whether an event ends the stream with an error.
pub open spec fn is_terminal_error(kind: Seq<char>) -> bool {
    kind == "response.failed"@ || kind == "response.incomplete"@ || kind == "error"@ || kind
        == "response.error"@
}

/// The events that an event of the Responses API becomes.
pub open spec fn translated(event: JsonView, provider: Seq<char>, model: Seq<char>) -> Seq<EventView> {
    let kind = text_or_empty(event.at("type"@).text());
    if kind == "response.output_text.delta"@ {
        match event.at("delta"@).text() {
            Some(t) => seq![EventView::Text(t)],
            None => Seq::empty(),
        }
    } else if kind == "response.output_item.done"@ && event.at("item"@).at("type"@)
        == JsonView::Text("function_call"@) {
        seq![function_call_event(event.at("item"@))]
    } else if kind == "response.completed"@ {
        seq![
            EventView::Usage(response_usage(event.at("response"@).at("usage"@))),
            EventView::Done,
        ]
    } else if is_terminal_error(kind) {
        seq![EventView::Error(event_failure(event, provider, model))]
    } else {
        Seq::empty()
    }
}

fn low32(n: u64) -> (r: u32)
    ensures
        r == n as u32,
{
    #[verifier::truncate]
    (n as u32)
}

fn count_field(value: &Json, key: &str) -> (r: u32)
    ensures
        r == count_or(value@.at(key@).uint(), 0),
{
    match value.uint_at(key) {
        Some(n) => low32(n),
        None => low32(0),
    }
}

fn child<'a>(value: &'a Json, key: &str, null: &'a Json) -> (r: &'a Json)
    requires
        null@ == JsonView::Null,
    ensures
        r@ == value@.at(key@),
{
    match value.get(key) {
        Some(v) => v,
        None => null,
    }
}

fn read_usage(usage: &Json) -> (r: Usage)
    ensures
        r@ == response_usage(usage@),
{
    let null = Json::Null;
    let details = child(usage, "input_tokens_details", &null);
    let mut cost_reports: Vec<Json> = Vec::new();
    match usage.get("cost") {
        Some(Json::Number(n)) => {
            cost_reports.push(Json::Number(n.clone()));
        },
        _ => {},
    }
    assert(json_views(cost_reports@) =~= response_usage(usage@).cost_reports);
    Usage {
        input_tokens: count_field(usage, "input_tokens"),
        output_tokens: count_field(usage, "output_tokens"),
        cache_read_tokens: count_field(details, "cached_tokens"),
        cache_creation_tokens: count_field(details, "cache_write_tokens"),
        cost_reports,
    }
}

fn read_function_call(item: &Json) -> (r: ApiEvent)
    ensures
        r@ == function_call_event(item@),
{
    let id = match item.text_at("call_id") {
        Some(id) => id,
        None => return ApiEvent::Error(
            ApiFailure::other("OpenAI function call omitted call_id".to_owned()),
        ),
    };
    let name = match item.text_at("name") {
        Some(name) => name,
        None => return ApiEvent::Error(
            ApiFailure::other("OpenAI function call omitted name".to_owned()),
        ),
    };
    let input = match item.text_at("arguments") {
        Some(arguments) => match Json::parse(arguments) {
            Ok(v) => Some(v),
            Err(_) => None,
        },
        None => None,
    };
    match input {
        Some(input) => ApiEvent::ToolUse { id: id.to_owned(), name: name.to_owned(), input },
        None => {
            let mut message = "OpenAI function ".to_owned();
            message.append(name);
            message.append(" returned invalid arguments");
            ApiEvent::Error(ApiFailure::other(message))
        },
    }
}

fn terminal_error(kind: &str) -> (r: bool)
    ensures
        r == is_terminal_error(kind@),
{
    text::same(kind, "response.failed") || text::same(kind, "response.incomplete") || text::same(
        kind,
        "error",
    ) || text::same(kind, "response.error")
}

/// The events that an event of the Responses API becomes.
pub fn translate_event(event: &Json, provider: &str, model: &str) -> (r: Vec<ApiEvent>)
    ensures
        event_views(r@) == translated(event@, provider@, model@),
{
    let null = Json::Null;
    let mut out: Vec<ApiEvent> = Vec::new();
    assert(event_views(out@) =~= Seq::empty());
    let kind = match event.text_at("type") {
        Some(t) => t.to_owned(),
        None => String::new(),
    };
    let item = child(event, "item", &null);
    let calls_function = match item.text_at("type") {
        Some(t) => text::same(t, "function_call"),
        None => false,
    };
    if text::same(kind.as_str(), "response.output_text.delta") {
        match event.text_at("delta") {
            Some(t) => {
                push_event(&mut out, ApiEvent::Text(t.to_owned()));
            },
            None => {},
        }
    } else if text::same(kind.as_str(), "response.output_item.done") && calls_function {
        push_event(&mut out, read_function_call(item));
    } else if text::same(kind.as_str(), "response.completed") {
        let usage = child(child(event, "response", &null), "usage", &null);
        push_event(&mut out, ApiEvent::Usage(read_usage(usage)));
        push_event(&mut out, ApiEvent::Done);
    } else if terminal_error(kind.as_str()) {
        push_event(&mut out, ApiEvent::Error(stream_error(event, provider, model)));
    }
    assert(event_views(out@) =~= translated(event@, provider@, model@));
    out
}


/// What the reader of a Responses stream has gathered.
pub struct ResponsesState {
    /// Whether the response is complete.
    pub completed: bool,
    /// The response that the next request can go on from.
    pub cursor: CursorView,
}

/// What the reading of some input leads to.
pub struct ResponsesStep {
    pub state: ResponsesState,
    pub events: Seq<EventView>,
    pub status: StatusView,
}

/// A line without the carriage returns that it ends with.
pub open spec fn without_returns(line: Seq<u8>) -> Seq<u8>
    decreases line.len(),
{
    if line.len() > 0 && line.last() == 13 {
        without_returns(line.drop_last())
    } else {
        line
    }
}

/// The payload of a line of a Responses stream.
pub open spec fn response_data(line: Seq<u8>) -> Option<Seq<char>> {
    let text = lossy_text(without_returns(line));
    if "data:"@.is_prefix_of(text) {
        Some(trimmed_start(text.skip("data:"@.len() as int)))
    } else {
        None
    }
}

/// The state after an event: a completed response is one that the next request can go
/// on from, with the messages that were sent.
pub open spec fn after_event(s: ResponsesState, event: JsonView, sent: nat) -> ResponsesState {
    if event.at("type"@) == JsonView::Text("response.completed"@) {
        ResponsesState {
            completed: true,
            cursor: match event.at("response"@).at("id"@).text() {
                Some(id) => CursorView { response_id: Some(id), sent_message_count: sent },
                None => s.cursor,
            },
        }
    } else {
        s
    }
}

/// What one line of a Responses stream leads to. Lines that are no JSON are passed over.
pub open spec fn response_line(
    s: ResponsesState,
    line: Seq<u8>,
    sent: nat,
    provider: Seq<char>,
    model: Seq<char>,
) -> ResponsesStep {
    let passed = ResponsesStep { state: s, events: Seq::empty(), status: StatusView::Going };
    match response_data(line) {
        None => passed,
        Some(data) => if data == "[DONE]"@ {
            passed
        } else {
            match parsed_json(data) {
                Err(_) => passed,
                Ok(event) => ResponsesStep {
                    state: after_event(s, event, sent),
                    events: translated(event, provider, model),
                    status: if is_terminal_error(text_or_empty(event.at("type"@).text())) {
                        StatusView::Finished
                    } else {
                        StatusView::Going
                    },
                },
            }
        },
    }
}

/// What lines of a Responses stream lead to: they are read in order, up to the first one
/// that ends the reading.
pub open spec fn response_lines(
    s: ResponsesState,
    lines: Seq<Seq<u8>>,
    sent: nat,
    provider: Seq<char>,
    model: Seq<char>,
) -> ResponsesStep
    decreases lines.len(),
{
    if lines.len() == 0 {
        ResponsesStep { state: s, events: Seq::empty(), status: StatusView::Going }
    } else {
        let first = response_line(s, lines[0], sent, provider, model);
        if first.status is Going {
            let others = response_lines(first.state, lines.drop_first(), sent, provider, model);
            ResponsesStep { events: first.events + others.events, ..others }
        } else {
            first
        }
    }
}

/// Reads the event stream of one response.
pub struct ResponsesReader {
    buffer: Vec<u8>,
    completed: bool,
    cursor: ResponseCursor,
    sent_message_count: usize,
}

impl ResponsesReader {
    /// What the reader has gathered.
    pub closed spec fn state(&self) -> ResponsesState {
        ResponsesState { completed: self.completed, cursor: self.cursor@ }
    }

    /// The bytes after the last complete line.
    pub closed spec fn pending(&self) -> Seq<u8> {
        self.buffer@
    }

    /// The number of messages that the request covered.
    pub closed spec fn sent(&self) -> nat {
        self.sent_message_count as nat
    }

    /// A reader of the answer to a request that covered so many messages.
    pub fn new(cursor: ResponseCursor, sent_message_count: usize) -> (r: ResponsesReader)
        ensures
            r.state() == (ResponsesState { completed: false, cursor: cursor@ }),
            r.pending() == Seq::<u8>::empty(),
            r.sent() == sent_message_count,
    {
        ResponsesReader { buffer: Vec::new(), completed: false, cursor, sent_message_count }
    }

    /// The response that the next request can go on from.
    pub fn cursor(&self) -> (r: &ResponseCursor)
        ensures
            r@ == self.state().cursor,
    {
        &self.cursor
    }

    /// Takes in one line of the stream.
    pub fn take_line(
        &mut self,
        line: &Vec<u8>,
        provider: &str,
        model: &str,
        events: &mut Vec<ApiEvent>,
    ) -> (r: ReadStatus)
        ensures
            ({
                let step = response_line(
                    old(self).state(),
                    line@,
                    old(self).sent(),
                    provider@,
                    model@,
                );
                &&& final(self).state() == step.state
                &&& event_views(final(events)@) == event_views(old(events)@) + step.events
                &&& r@ == step.status
            }),
            final(self).pending() == old(self).pending(),
            final(self).sent() == old(self).sent(),
    {
        assert(event_views(events@) =~= event_views(old(events)@) + Seq::empty());
        let mut n: usize = line.len();
        assert(line@.take(n as int) =~= line@);
        while n > 0 && line[n - 1] == 13
            invariant
                n <= line@.len(),
                without_returns(line@.take(n as int)) == without_returns(line@),
            decreases n,
        {
            assert(line@.take(n as int).drop_last() =~= line@.take(n - 1));
            n = n - 1;
        }
        let raw = vstd::slice::slice_subrange(line.as_slice(), 0, n);
        assert(raw@ =~= line@.take(n as int));
        let text = decode_lossy(raw);
        let data = match text::strip_prefix(text.as_str(), "data:") {
            Some(rest) => text::trim_start(rest),
            None => return ReadStatus::Going,
        };
        if text::same(data, "[DONE]") {
            return ReadStatus::Going;
        }
        let event = match Json::parse(data) {
            Ok(v) => v,
            Err(_) => return ReadStatus::Going,
        };
        let kind = match event.text_at("type") {
            Some(t) => t.to_owned(),
            None => String::new(),
        };
        proof {
            reveal_strlit("response.completed");
            assert("response.completed"@.len() == 18);
        }
        if text::same(kind.as_str(), "response.completed") {
            let null = Json::Null;
            match child(&event, "response", &null).text_at("id") {
                Some(id) => {
                    self.cursor = ResponseCursor {
                        response_id: Some(id.to_owned()),
                        sent_message_count: self.sent_message_count,
                    };
                },
                None => {},
            }
            self.completed = true;
        }
        let mut more = translate_event(&event, provider, model);
        let ghost translated_events = event_views(more@);
        let ghost before = event_views(events@);
        let ghost added = more@;
        let ghost had = events@;
        events.append(&mut more);
        assert(event_views(events@) =~= before + translated_events);
        if terminal_error(kind.as_str()) {
            ReadStatus::Finished
        } else {
            ReadStatus::Going
        }
    }

    /// Takes in a chunk of the stream and hands out the events that it completes.
    pub fn read_responses_sse(&mut self, chunk: &[u8], provider: &str, model: &str) -> (r: (
        Vec<ApiEvent>,
        ReadStatus,
    ))
        ensures
            ({
                let (lines, open_line) = split_lines(old(self).pending() + chunk@);
                let step = response_lines(
                    old(self).state(),
                    lines,
                    old(self).sent(),
                    provider@,
                    model@,
                );
                &&& final(self).state() == step.state
                &&& event_views(r.0@) == step.events
                &&& r.1@ == step.status
                &&& final(self).pending() == open_line
                &&& final(self).sent() == old(self).sent()
            }),
    {
        let mut events: Vec<ApiEvent> = Vec::new();
        assert(event_views(events@) =~= Seq::empty());
        let ghost start = self.state();
        let ghost sent = self.sent();
        let lines = take_lines(&mut self.buffer, chunk);
        let ghost all = byte_views(lines@);
        let ghost whole = response_lines(start, all, sent, provider@, model@);
        let ghost left = self.pending();
        let mut i: usize = 0;
        assert(all.skip(0) =~= all);
        assert(Seq::<EventView>::empty() + whole.events =~= whole.events);
        while i < lines.len()
            invariant
                i <= lines@.len(),
                all == byte_views(lines@),
                self.pending() == left,
                self.sent() == sent,
                ({
                    let others = response_lines(
                        self.state(),
                        all.skip(i as int),
                        sent,
                        provider@,
                        model@,
                    );
                    &&& whole.state == others.state
                    &&& whole.status == others.status
                    &&& whole.events == event_views(events@) + others.events
                }),
                whole == response_lines(start, all, sent, provider@, model@),
                start == old(self).state(),
                sent == old(self).sent(),
                all == split_lines(old(self).pending() + chunk@).0,
                left == split_lines(old(self).pending() + chunk@).1,
            decreases lines.len() - i,
        {
            let ghost before = event_views(events@);
            let ghost here = self.state();
            let status = self.take_line(&lines[i], provider, model, &mut events);
            proof {
                let tail = all.skip(i as int);
                assert(tail[0] == lines@[i as int]@);
                assert(tail.drop_first() =~= all.skip(i + 1));
                let first = response_line(here, tail[0], sent, provider@, model@);
                let others = response_lines(
                    first.state,
                    tail.drop_first(),
                    sent,
                    provider@,
                    model@,
                );
                assert(before + (first.events + others.events) =~= (before + first.events)
                    + others.events);
            }
            match status {
                ReadStatus::Going => {},
                _ => {
                    return (events, status);
                },
            }
            i = i + 1;
        }
        assert(event_views(events@) + Seq::<EventView>::empty() =~= event_views(events@));
        (events, ReadStatus::Going)
    }

    /// The end of the stream: a success only if the response is complete.
    pub fn end_of_stream(&self) -> (r: ReadStatus)
        ensures
            r@ == if self.state().completed {
                StatusView::Finished
            } else {
                StatusView::Failed(
                    FailureView {
                        kind: ApiFailureKind::Other,
                        message: "stream ended before response.completed"@,
                    },
                )
            },
    {
        if self.completed {
            ReadStatus::Finished
        } else {
            ReadStatus::Failed(
                ApiFailure::other("stream ended before response.completed".to_owned()),
            )
        }
    }
}

proof fn lemma_lines_in_turn(
    s: ResponsesState,
    a: Seq<Seq<u8>>,
    b: Seq<Seq<u8>>,
    sent: nat,
    provider: Seq<char>,
    model: Seq<char>,
)
    requires
        response_lines(s, a, sent, provider, model).status is Going,
    ensures
        ({
            let first = response_lines(s, a, sent, provider, model);
            let second = response_lines(first.state, b, sent, provider, model);
            response_lines(s, a + b, sent, provider, model) == (ResponsesStep {
                events: first.events + second.events,
                ..second
            })
        }),
    decreases a.len(),
{
    if a.len() == 0 {
        assert(a + b =~= b);
        let second = response_lines(s, b, sent, provider, model);
        assert(Seq::<EventView>::empty() + second.events =~= second.events);
    } else {
        let one = response_line(s, a[0], sent, provider, model);
        lemma_lines_in_turn(one.state, a.drop_first(), b, sent, provider, model);
        assert((a + b).drop_first() =~= a.drop_first() + b);
        assert((a + b)[0] == a[0]);
        let first = response_lines(one.state, a.drop_first(), sent, provider, model);
        let second = response_lines(first.state, b, sent, provider, model);
        assert(one.events + (first.events + second.events) =~= (one.events + first.events)
            + second.events);
    }
}

/// Where a Responses stream is cut into chunks makes no difference: as long as it has
/// not ended, two chunks in turn lead to the events, the state and the status that the
/// two at once lead to.
pub proof fn law_responses_chunks(
    s: ResponsesState,
    a: Seq<u8>,
    b: Seq<u8>,
    sent: nat,
    provider: Seq<char>,
    model: Seq<char>,
)
    requires
        response_lines(s, split_lines(a).0, sent, provider, model).status is Going,
    ensures
        ({
            let first = response_lines(s, split_lines(a).0, sent, provider, model);
            let second = response_lines(
                first.state,
                split_lines(split_lines(a).1 + b).0,
                sent,
                provider,
                model,
            );
            response_lines(s, split_lines(a + b).0, sent, provider, model) == (ResponsesStep {
                events: first.events + second.events,
                ..second
            })
        }),
{
    law_chunks(a, b);
    lemma_lines_in_turn(
        s,
        split_lines(a).0,
        split_lines(split_lines(a).1 + b).0,
        sent,
        provider,
        model,
    );
}

} // verus!
