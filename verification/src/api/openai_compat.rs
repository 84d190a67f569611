//! Requests to OpenAI-compatible providers: the chat completions format.

use vstd::prelude::*;
use vstd::string::StringExecFns;
use vstd::string::StrSliceExecFns;
use crate::api::types::{
    block_views, message_views, text_option, tool_views, BlockView, ContentBlock, ContentView,
    ImageSource, ImageView, Message, MessageContent, MessageView, ToolDefinition,
    ToolDefinitionView,
};
use crate::json::{json_views, push_field, rendered_json, unsigned_number, Json, JsonView};
use crate::text;
use crate::text::{joined, pair_views, texts};

verus! {

/// An object with one field.
pub open spec fn object1(k: Seq<char>, v: JsonView) -> JsonView {
    JsonView::Object(map![k => v])
}

/// An object with one field.
pub fn one_field(key: &str, value: Json) -> (r: Json)
    ensures
        r@ == object1(key@, value@),
{
    let mut fields: Vec<(String, Json)> = Vec::new();
    push_field(&mut fields, key, value);
    Json::Object(fields)
}

/// Appends a value.
pub fn push_json(out: &mut Vec<Json>, value: Json)
    ensures
        json_views(final(out)@) == json_views(old(out)@).push(value@),
        final(out)@.len() == old(out)@.len() + 1,
{
    out.push(value);
    assert(json_views(out@) =~= json_views(old(out)@).push(value@));
}

/// Appends values.
pub fn append_json(out: &mut Vec<Json>, values: Vec<Json>)
    ensures
        json_views(final(out)@) == json_views(old(out)@) + json_views(values@),
{
    let mut more = values;
    out.append(&mut more);
    assert(json_views(out@) =~= json_views(old(out)@) + json_views(values@));
}

/// A plain message.
pub open spec fn plain_message(role: Seq<char>, content: JsonView) -> JsonView {
    JsonView::Object(map!["role"@ => JsonView::Text(role), "content"@ => content])
}

/// A plain message.
pub fn make_plain_message(role: &str, content: Json) -> (r: Json)
    ensures
        r@ == plain_message(role@, content@),
{
    let mut fields: Vec<(String, Json)> = Vec::new();
    push_field(&mut fields, "role", Json::text(role));
    push_field(&mut fields, "content", content);
    Json::Object(fields)
}

/// The data URL of an image.
pub open spec fn data_url(source: ImageView) -> Seq<char> {
    "data:"@ + source.media_type + ";base64,"@ + source.data
}

/// The data URL of an image.
pub fn image_url(source: &ImageSource) -> (r: String)
    ensures
        r@ == data_url(source@),
{
    let mut url = "data:".to_owned();
    url.append(source.media_type.as_str());
    url.append(";base64,");
    url.append(source.data.as_str());
    url
}

/// An image as a content part.
pub open spec fn image_part(source: ImageView) -> JsonView {
    JsonView::Object(
        map![
            "type"@ => JsonView::Text("image_url"@),
            "image_url"@ => object1("url"@, JsonView::Text(data_url(source))),
        ],
    )
}

/// A text as a content part.
pub open spec fn text_part(text: Seq<char>) -> JsonView {
    JsonView::Object(map!["type"@ => JsonView::Text("text"@), "text"@ => JsonView::Text(text)])
}

/// A tool use as a tool call.
pub open spec fn tool_call(id: Seq<char>, name: Seq<char>, input: JsonView) -> JsonView {
    JsonView::Object(
        map![
            "id"@ => JsonView::Text(id),
            "type"@ => JsonView::Text("function"@),
            "function"@ => JsonView::Object(
                map![
                    "name"@ => JsonView::Text(name),
                    "arguments"@ => JsonView::Text(rendered_json(input)),
                ],
            ),
        ],
    )
}

/// A tool result as a message of its own.
pub open spec fn tool_message(tool_use_id: Seq<char>, content: Seq<char>) -> JsonView {
    JsonView::Object(
        map![
            "role"@ => JsonView::Text("tool"@),
            "tool_call_id"@ => JsonView::Text(tool_use_id),
            "content"@ => JsonView::Text(content),
        ],
    )
}

/// The blocks of a message, sorted by what becomes of them.
pub struct SortedBlocks {
    pub texts: Seq<Seq<char>>,
    pub images: Seq<JsonView>,
    pub calls: Seq<JsonView>,
    pub results: Seq<JsonView>,
    pub reasoning_text: Seq<char>,
    pub reasoning_details: Seq<JsonView>,
}

/// The blocks of a message, sorted by what becomes of them; each kind keeps its order.
pub open spec fn sorted_blocks(blocks: Seq<BlockView>) -> SortedBlocks
    decreases blocks.len(),
{
    if blocks.len() == 0 {
        SortedBlocks {
            texts: Seq::empty(),
            images: Seq::empty(),
            calls: Seq::empty(),
            results: Seq::empty(),
            reasoning_text: Seq::empty(),
            reasoning_details: Seq::empty(),
        }
    } else {
        let s = sorted_blocks(blocks.drop_last());
        match blocks.last() {
            BlockView::Text { text } => SortedBlocks { texts: s.texts.push(text), ..s },
            BlockView::Image { source } => SortedBlocks {
                images: s.images.push(image_part(source)),
                ..s
            },
            BlockView::Reasoning { text, details } => SortedBlocks {
                reasoning_text: match text {
                    Some(t) => s.reasoning_text + t,
                    None => s.reasoning_text,
                },
                reasoning_details: s.reasoning_details + details,
                ..s
            },
            BlockView::ToolUse { id, name, input } => SortedBlocks {
                calls: s.calls.push(tool_call(id, name, input)),
                ..s
            },
            BlockView::ToolResult { tool_use_id, content, is_error } => SortedBlocks {
                results: s.results.push(tool_message(tool_use_id, content)),
                ..s
            },
        }
    }
}

/// An assistant message that calls tools.
pub open spec fn calling_message(s: SortedBlocks) -> JsonView {
    let named = map!["role"@ => JsonView::Text("assistant"@)];
    let with_text = if s.texts.len() > 0 {
        named.insert("content"@, JsonView::Text(joined(s.texts, "\n"@)))
    } else {
        named
    };
    let with_reasoning = if s.reasoning_details.len() > 0 {
        with_text.insert("reasoning_details"@, JsonView::Array(s.reasoning_details))
    } else if s.reasoning_text.len() > 0 {
        with_text.insert("reasoning"@, JsonView::Text(s.reasoning_text))
    } else {
        with_text
    };
    JsonView::Object(with_reasoning.insert("tool_calls"@, JsonView::Array(s.calls)))
}

/// The content parts of texts.
pub open spec fn text_parts(texts: Seq<Seq<char>>) -> Seq<JsonView> {
    Seq::new(texts.len(), |i: int| text_part(texts[i]))
}

/// The messages that one message becomes. Tool calls come before anything else in a
/// message; without them tool results do; without either, texts and images.
pub open spec fn chat_messages(message: MessageView) -> Seq<JsonView> {
    match message.content {
        ContentView::Text(text) => seq![plain_message(message.role, JsonView::Text(text))],
        ContentView::Blocks(blocks) => {
            let s = sorted_blocks(blocks);
            if s.calls.len() > 0 {
                seq![calling_message(s)]
            } else if s.results.len() > 0 {
                s.results
            } else if s.images.len() > 0 {
                seq![
                    plain_message(message.role, JsonView::Array(text_parts(s.texts) + s.images)),
                ]
            } else if s.texts.len() > 0 {
                seq![plain_message(message.role, JsonView::Text(joined(s.texts, "\n"@)))]
            } else {
                Seq::empty()
            }
        },
    }
}

/// The messages that a conversation becomes, after the system prompt.
pub open spec fn chat_history(messages: Seq<MessageView>) -> Seq<JsonView>
    decreases messages.len(),
{
    if messages.len() == 0 {
        Seq::empty()
    } else {
        chat_history(messages.drop_last()) + chat_messages(messages.last())
    }
}

/// The conversation in the chat completions format.
pub open spec fn chat_request(messages: Seq<MessageView>, system: Seq<char>) -> Seq<JsonView> {
    seq![plain_message("system"@, JsonView::Text(system))] + chat_history(messages)
}

/// The tool in the chat completions format.
pub open spec fn function_tool(tool: ToolDefinitionView) -> JsonView {
    JsonView::Object(
        map![
            "type"@ => JsonView::Text("function"@),
            "function"@ => JsonView::Object(
                map![
                    "name"@ => JsonView::Text(tool.name),
                    "description"@ => JsonView::Text(tool.description),
                    "parameters"@ => tool.input_schema,
                ],
            ),
        ],
    )
}

/// The tools in the chat completions format.
pub open spec fn function_tools(tools: Seq<ToolDefinitionView>) -> Seq<JsonView> {
    Seq::new(tools.len(), |i: int| function_tool(tools[i]))
}

fn make_tool_call(id: &str, name: &str, input: &Json) -> (r: Json)
    ensures
        r@ == tool_call(id@, name@, input@),
{
    let mut function: Vec<(String, Json)> = Vec::new();
    push_field(&mut function, "name", Json::text(name));
    push_field(&mut function, "arguments", Json::Text(input.render()));
    let mut fields: Vec<(String, Json)> = Vec::new();
    push_field(&mut fields, "id", Json::text(id));
    push_field(&mut fields, "type", Json::text("function"));
    push_field(&mut fields, "function", Json::Object(function));
    Json::Object(fields)
}

fn make_tool_message(tool_use_id: &str, content: &str) -> (r: Json)
    ensures
        r@ == tool_message(tool_use_id@, content@),
{
    let mut fields: Vec<(String, Json)> = Vec::new();
    push_field(&mut fields, "role", Json::text("tool"));
    push_field(&mut fields, "tool_call_id", Json::text(tool_use_id));
    push_field(&mut fields, "content", Json::text(content));
    Json::Object(fields)
}

fn make_image_part(source: &ImageSource) -> (r: Json)
    ensures
        r@ == image_part(source@),
{
    let mut fields: Vec<(String, Json)> = Vec::new();
    push_field(&mut fields, "type", Json::text("image_url"));
    push_field(&mut fields, "image_url", one_field("url", Json::Text(image_url(source))));
    Json::Object(fields)
}

fn make_text_part(text: &str) -> (r: Json)
    ensures
        r@ == text_part(text@),
{
    let mut fields: Vec<(String, Json)> = Vec::new();
    push_field(&mut fields, "type", Json::text("text"));
    push_field(&mut fields, "text", Json::text(text));
    Json::Object(fields)
}

/// The blocks of a message under way to a provider.
struct Sorted {
    texts: Vec<String>,
    images: Vec<Json>,
    calls: Vec<Json>,
    results: Vec<Json>,
    reasoning_text: String,
    reasoning_details: Vec<Json>,
}

impl Sorted {
    spec fn view(self) -> SortedBlocks {
        SortedBlocks {
            texts: texts(self.texts@),
            images: json_views(self.images@),
            calls: json_views(self.calls@),
            results: json_views(self.results@),
            reasoning_text: self.reasoning_text@,
            reasoning_details: json_views(self.reasoning_details@),
        }
    }

    fn of(blocks: &Vec<ContentBlock>) -> (r: Sorted)
        ensures
            r.view() == sorted_blocks(block_views(blocks@)),
    {
        let mut s = Sorted {
            texts: Vec::new(),
            images: Vec::new(),
            calls: Vec::new(),
            results: Vec::new(),
            reasoning_text: String::new(),
            reasoning_details: Vec::new(),
        };
        assert(texts(s.texts@) =~= Seq::empty());
        assert(json_views(s.images@) =~= Seq::empty());
        let mut i: usize = 0;
        while i < blocks.len()
            invariant
                i <= blocks@.len(),
                s.view() == sorted_blocks(block_views(blocks@).take(i as int)),
            decreases blocks.len() - i,
        {
            let ghost part = block_views(blocks@).take(i + 1);
            assert(part.drop_last() =~= block_views(blocks@).take(i as int));
            assert(part.last() == blocks@[i as int]@);
            let ghost before = s;
            match &blocks[i] {
                ContentBlock::Text { text } => {
                    s.texts.push(text.clone());
                    assert(texts(s.texts@) =~= texts(before.texts@).push(text@));
                },
                ContentBlock::Image { source } => {
                    push_json(&mut s.images, make_image_part(source));
                },
                ContentBlock::Reasoning { text, details } => {
                    match text {
                        Some(t) => {
                            s.reasoning_text.append(t.as_str());
                        },
                        None => {},
                    }
                    append_json(
                        &mut s.reasoning_details,
                        crate::api::types::duplicate_json_list(details),
                    );
                },
                ContentBlock::ToolUse { id, name, input } => {
                    push_json(&mut s.calls, make_tool_call(id.as_str(), name.as_str(), input));
                },
                ContentBlock::ToolResult { tool_use_id, content, is_error } => {
                    push_json(
                        &mut s.results,
                        make_tool_message(tool_use_id.as_str(), content.as_str()),
                    );
                },
            }
            i = i + 1;
        }
        assert(block_views(blocks@).take(blocks@.len() as int) =~= block_views(blocks@));
        s
    }

    fn calling_message(self) -> (r: Json)
        ensures
            r@ == calling_message(self.view()),
    {
        let mut fields: Vec<(String, Json)> = Vec::new();
        push_field(&mut fields, "role", Json::text("assistant"));
        if self.texts.len() > 0 {
            push_field(
                &mut fields,
                "content",
                Json::Text(text::join(self.texts.as_slice(), "\n")),
            );
        }
        if self.reasoning_details.len() > 0 {
            push_field(&mut fields, "reasoning_details", Json::Array(self.reasoning_details));
        } else if !self.reasoning_text.as_str().is_empty() {
            push_field(&mut fields, "reasoning", Json::Text(self.reasoning_text));
        }
        push_field(&mut fields, "tool_calls", Json::Array(self.calls));
        Json::Object(fields)
    }

    fn parts(self) -> (r: Vec<Json>)
        ensures
            json_views(r@) == text_parts(self.view().texts) + self.view().images,
    {
        let mut content: Vec<Json> = Vec::new();
        let mut i: usize = 0;
        while i < self.texts.len()
            invariant
                i == content@.len(),
                i <= self.texts@.len(),
                forall|k: int| 0 <= k < i ==> content@[k]@ == text_part(self.texts@[k]@),
            decreases self.texts.len() - i,
        {
            content.push(make_text_part(self.texts[i].as_str()));
            i = i + 1;
        }
        assert(json_views(content@) =~= text_parts(texts(self.texts@)));
        append_json(&mut content, self.images);
        content
    }
}

fn message_to_chat(message: &Message) -> (r: Vec<Json>)
    ensures
        json_views(r@) == chat_messages(message@),
{
    let mut out: Vec<Json> = Vec::new();
    assert(json_views(out@) =~= Seq::empty());
    match &message.content {
        MessageContent::Text(text) => {
            push_json(
                &mut out,
                make_plain_message(message.role.as_str(), Json::text(text.as_str())),
            );
        },
        MessageContent::Blocks(blocks) => {
            let s = Sorted::of(blocks);
            if s.calls.len() > 0 {
                push_json(&mut out, s.calling_message());
            } else if s.results.len() > 0 {
                return s.results;
            } else if s.images.len() > 0 {
                push_json(
                    &mut out,
                    make_plain_message(message.role.as_str(), Json::Array(s.parts())),
                );
            } else if s.texts.len() > 0 {
                push_json(
                    &mut out,
                    make_plain_message(
                        message.role.as_str(),
                        Json::Text(text::join(s.texts.as_slice(), "\n")),
                    ),
                );
            }
        },
    }
    assert(json_views(out@) =~= chat_messages(message@));
    out
}

/// A provider that speaks the chat completions streaming format.
pub struct OpenAICompatProvider {
    pub api_key: String,
    pub model: String,
    pub base_url: String,
    pub provider_name: String,
    pub reasoning_effort: Option<String>,
    pub prompt_caching: bool,
    pub allow_eof_without_finish_reason: bool,
}

/// The headers of requests with a JSON body, which carry the key where there is one.
pub open spec fn bearer_headers(api_key: Seq<char>) -> Seq<(Seq<char>, Seq<char>)> {
    let content = seq![("content-type"@, "application/json"@)];
    if api_key.len() == 0 {
        content
    } else {
        content.push(("Authorization"@, "Bearer "@ + api_key))
    }
}

/// The headers of requests with a JSON body, which carry the key where there is one.
pub fn json_headers(api_key: &str) -> (r: Vec<(String, String)>)
    ensures
        pair_views(r@) == bearer_headers(api_key@),
{
    let mut headers: Vec<(String, String)> = Vec::new();
    headers.push(("content-type".to_owned(), "application/json".to_owned()));
    if api_key.unicode_len() > 0 {
        let mut value = "Bearer ".to_owned();
        value.append(api_key);
        headers.push(("Authorization".to_owned(), value));
    }
    assert(pair_views(headers@) =~= bearer_headers(api_key@));
    headers
}

/// The string without the slashes that it ends with.
pub open spec fn without_trailing_slashes(s: Seq<char>) -> Seq<char>
    decreases s.len(),
{
    if s.len() > 0 && s.last() == '/' {
        without_trailing_slashes(s.drop_last())
    } else {
        s
    }
}

/// The string without the slashes that it ends with.
pub fn strip_trailing_slashes(s: &str) -> (r: &str)
    ensures
        r@ == without_trailing_slashes(s@),
{
    let a = text::chars_of(s);
    let mut i: usize = a.len();
    assert(a@.take(a@.len() as int) =~= a@);
    while i > 0 && a[i - 1] == '/'
        invariant
            i <= a@.len(),
            without_trailing_slashes(a@.take(i as int)) == without_trailing_slashes(a@),
        decreases i,
    {
        assert(a@.take(i as int).drop_last() =~= a@.take(i - 1));
        i = i - 1;
    }
    let r = s.substring_char(0, i);
    assert(r@ =~= a@.take(i as int));
    r
}

/// The body of a chat completions request.
pub open spec fn chat_body(
    model: Seq<char>,
    reasoning_effort: Option<Seq<char>>,
    prompt_caching: bool,
    messages: Seq<MessageView>,
    system: Seq<char>,
    tools: Seq<ToolDefinitionView>,
    max_tokens: u32,
) -> JsonView {
    let plain =
        map![
        "model"@ => JsonView::Text(model),
        "max_tokens"@ => JsonView::Number(unsigned_number(max_tokens as u64)),
        "messages"@ => JsonView::Array(chat_request(messages, system)),
        "stream"@ => JsonView::Bool(true),
        "stream_options"@ => object1("include_usage"@, JsonView::Bool(true)),
    ];
    let with_tools = if tools.len() > 0 {
        plain.insert("tools"@, JsonView::Array(function_tools(tools)))
    } else {
        plain
    };
    let with_effort = match reasoning_effort {
        Some(effort) => with_tools.insert(
            "reasoning"@,
            object1("effort"@, JsonView::Text(effort)),
        ),
        None => with_tools,
    };
    JsonView::Object(
        if prompt_caching {
            with_effort.insert("cache_control"@, object1("type"@, JsonView::Text("ephemeral"@)))
        } else {
            with_effort
        },
    )
}

impl OpenAICompatProvider {
    /// A provider at the given URL.
    pub fn new(
        base_url: &str,
        api_key: &str,
        model: &str,
        name: &str,
        reasoning_effort: Option<&str>,
    ) -> (r: OpenAICompatProvider)
        ensures
            r.api_key@ == api_key@,
            r.model@ == model@,
            r.base_url@ == without_trailing_slashes(base_url@),
            r.provider_name@ == name@,
            text_option(r.reasoning_effort) == crate::api::error::str_option(reasoning_effort),
            !r.prompt_caching,
            !r.allow_eof_without_finish_reason,
    {
        OpenAICompatProvider {
            api_key: api_key.to_owned(),
            model: model.to_owned(),
            base_url: strip_trailing_slashes(base_url).to_owned(),
            provider_name: name.to_owned(),
            reasoning_effort: match reasoning_effort {
                Some(e) => Some(e.to_owned()),
                None => None,
            },
            prompt_caching: false,
            allow_eof_without_finish_reason: false,
        }
    }

    /// The same provider, with prompt caching on or off.
    pub fn with_prompt_caching(self, enabled: bool) -> (r: OpenAICompatProvider)
        ensures
            r == (OpenAICompatProvider { prompt_caching: enabled, ..self }),
    {
        OpenAICompatProvider { prompt_caching: enabled, ..self }
    }

    /// The same provider, which may or may not close its stream without a finish reason.
    pub fn with_eof_without_finish_reason(self, enabled: bool) -> (r: OpenAICompatProvider)
        ensures
            r == (OpenAICompatProvider { allow_eof_without_finish_reason: enabled, ..self }),
    {
        OpenAICompatProvider { allow_eof_without_finish_reason: enabled, ..self }
    }

    /// The name of the provider.
    pub fn name(&self) -> (r: &str)
        ensures
            r@ == self.provider_name@,
    {
        self.provider_name.as_str()
    }

    /// Changes the model.
    pub fn set_model(&mut self, model: &str)
        ensures
            final(self).model@ == model@,
            *final(self) == (OpenAICompatProvider { model: final(self).model, ..*old(self) }),
    {
        self.model = model.to_owned();
    }

    /// The URL that requests go to.
    pub fn request_url(&self) -> (r: String)
        ensures
            r@ == self.base_url@ + "/chat/completions"@,
    {
        let mut url = self.base_url.clone();
        url.append("/chat/completions");
        url
    }

    /// The headers of requests.
    pub fn request_headers(&self) -> (r: Vec<(String, String)>)
        ensures
            pair_views(r@) == bearer_headers(self.api_key@),
    {
        json_headers(self.api_key.as_str())
    }

    /// Converts messages to the chat completions format.
    pub fn convert_messages(messages: &[Message], system: &str) -> (r: Vec<Json>)
        ensures
            json_views(r@) == chat_request(message_views(messages@), system@),
    {
        let mut out: Vec<Json> = Vec::new();
        push_json(&mut out, make_plain_message("system", Json::text(system)));
        let ghost first = seq![plain_message("system"@, JsonView::Text(system@))];
        assert(json_views(out@) =~= first + chat_history(message_views(messages@).take(0)));
        let mut i: usize = 0;
        while i < messages.len()
            invariant
                i <= messages@.len(),
                json_views(out@) == first + chat_history(message_views(messages@).take(i as int)),
            decreases messages.len() - i,
        {
            let ghost part = message_views(messages@).take(i + 1);
            assert(part.drop_last() =~= message_views(messages@).take(i as int));
            assert(part.last() == messages@[i as int]@);
            append_json(&mut out, message_to_chat(&messages[i]));
            assert(json_views(out@) =~= first + chat_history(part));
            i = i + 1;
        }
        assert(message_views(messages@).take(messages@.len() as int) =~= message_views(messages@));
        out
    }

    /// Converts tool definitions to the chat completions format.
    pub fn convert_tools(tools: &[ToolDefinition]) -> (r: Vec<Json>)
        ensures
            json_views(r@) == function_tools(tool_views(tools@)),
    {
        let mut out: Vec<Json> = Vec::new();
        let mut i: usize = 0;
        while i < tools.len()
            invariant
                i == out@.len(),
                i <= tools@.len(),
                forall|k: int| 0 <= k < i ==> out@[k]@ == function_tool(tools@[k]@),
            decreases tools.len() - i,
        {
            let mut function: Vec<(String, Json)> = Vec::new();
            push_field(&mut function, "name", Json::text(tools[i].name.as_str()));
            push_field(&mut function, "description", Json::text(tools[i].description.as_str()));
            push_field(&mut function, "parameters", tools[i].input_schema.duplicate());
            let mut fields: Vec<(String, Json)> = Vec::new();
            push_field(&mut fields, "type", Json::text("function"));
            push_field(&mut fields, "function", Json::Object(function));
            out.push(Json::Object(fields));
            i = i + 1;
        }
        assert(json_views(out@) =~= function_tools(tool_views(tools@)));
        out
    }

    /// The body of a request.
    pub fn request_body(
        &self,
        messages: &[Message],
        system: &str,
        tools: &[ToolDefinition],
        max_tokens: u32,
    ) -> (r: Json)
        ensures
            r@ == chat_body(
                self.model@,
                text_option(self.reasoning_effort),
                self.prompt_caching,
                message_views(messages@),
                system@,
                tool_views(tools@),
                max_tokens,
            ),
    {
        let mut body: Vec<(String, Json)> = Vec::new();
        push_field(&mut body, "model", Json::text(self.model.as_str()));
        push_field(&mut body, "max_tokens", Json::uint(max_tokens as u64));
        push_field(&mut body, "messages", Json::Array(Self::convert_messages(messages, system)));
        push_field(&mut body, "stream", Json::Bool(true));
        push_field(&mut body, "stream_options", one_field("include_usage", Json::Bool(true)));
        if tools.len() > 0 {
            push_field(&mut body, "tools", Json::Array(Self::convert_tools(tools)));
        }
        match &self.reasoning_effort {
            Some(effort) => {
                push_field(
                    &mut body,
                    "reasoning",
                    one_field("effort", Json::text(effort.as_str())),
                );
            },
            None => {},
        }
        if self.prompt_caching {
            push_field(&mut body, "cache_control", one_field("type", Json::text("ephemeral")));
        }
        Json::Object(body)
    }
}

} // verus!
