//! Messages of a conversation, their content blocks and their JSON form.

use vstd::prelude::*;
use crate::json::{json_views, Json, JsonView};
use crate::text;

verus! {

/// A message in the conversation.
pub struct Message {
    pub role: String,
    pub content: MessageContent,
}

/// Message content: a simple string or an array of content blocks.
pub enum MessageContent {
    Text(String),
    Blocks(Vec<ContentBlock>),
}

/// A content block within a message.
#[allow(inconsistent_fields)]
pub enum ContentBlock {
    Text { text: String },
    /// Base64-encoded image input.
    Image { source: ImageSource },
    /// Provider reasoning state retained for multi-round tool use. It is not
    /// rendered as assistant text.
    Reasoning { text: Option<String>, details: Vec<Json> },
    ToolUse { id: String, name: String, input: Json },
    ToolResult { tool_use_id: String, content: String, is_error: Option<bool> },
}

/// An image in the shape that Anthropic accepts.
pub struct ImageSource {
    pub source_type: String,
    pub media_type: String,
    pub data: String,
}

/// Tool definition sent to the API.
pub struct ToolDefinition {
    pub name: String,
    pub description: String,
    pub input_schema: Json,
}

/// A message as a mathematical object.
pub struct MessageView {
    pub role: Seq<char>,
    pub content: ContentView,
}

/// Message content as a mathematical object.
pub enum ContentView {
    Text(Seq<char>),
    Blocks(Seq<BlockView>),
}

/// A content block as a mathematical object.
#[allow(inconsistent_fields)]
pub enum BlockView {
    Text { text: Seq<char> },
    Image { source: ImageView },
    Reasoning { text: Option<Seq<char>>, details: Seq<JsonView> },
    ToolUse { id: Seq<char>, name: Seq<char>, input: JsonView },
    ToolResult { tool_use_id: Seq<char>, content: Seq<char>, is_error: Option<bool> },
}

/// An image as a mathematical object.
pub struct ImageView {
    pub source_type: Seq<char>,
    pub media_type: Seq<char>,
    pub data: Seq<char>,
}

/// A tool definition as a mathematical object.
pub struct ToolDefinitionView {
    pub name: Seq<char>,
    pub description: Seq<char>,
    pub input_schema: JsonView,
}

impl View for ImageSource {
    type V = ImageView;

    open spec fn view(&self) -> ImageView {
        ImageView {
            source_type: self.source_type@,
            media_type: self.media_type@,
            data: self.data@,
        }
    }
}

impl View for ToolDefinition {
    type V = ToolDefinitionView;

    open spec fn view(&self) -> ToolDefinitionView {
        ToolDefinitionView {
            name: self.name@,
            description: self.description@,
            input_schema: self.input_schema@,
        }
    }
}

/// The characters of an optional string.
pub open spec fn text_option(s: Option<String>) -> Option<Seq<char>> {
    match s {
        Some(t) => Some(t@),
        None => None,
    }
}

/// A copy of an optional string.
pub fn copy_text(s: &Option<String>) -> (r: Option<String>)
    ensures
        text_option(r) == text_option(*s),
{
    match s {
        Some(t) => Some(t.clone()),
        None => None,
    }
}

impl View for ContentBlock {
    type V = BlockView;

    open spec fn view(&self) -> BlockView {
        match self {
            ContentBlock::Text { text } => BlockView::Text { text: text@ },
            ContentBlock::Image { source } => BlockView::Image { source: source@ },
            ContentBlock::Reasoning { text, details } => BlockView::Reasoning {
                text: text_option(*text),
                details: json_views(details@),
            },
            ContentBlock::ToolUse { id, name, input } => BlockView::ToolUse {
                id: id@,
                name: name@,
                input: input@,
            },
            ContentBlock::ToolResult { tool_use_id, content, is_error } => BlockView::ToolResult {
                tool_use_id: tool_use_id@,
                content: content@,
                is_error: *is_error,
            },
        }
    }
}

/// The views of a list of blocks.
pub open spec fn block_views(blocks: Seq<ContentBlock>) -> Seq<BlockView> {
    Seq::new(blocks.len(), |i: int| blocks[i]@)
}

impl View for MessageContent {
    type V = ContentView;

    open spec fn view(&self) -> ContentView {
        match self {
            MessageContent::Text(s) => ContentView::Text(s@),
            MessageContent::Blocks(blocks) => ContentView::Blocks(block_views(blocks@)),
        }
    }
}

impl View for Message {
    type V = MessageView;

    open spec fn view(&self) -> MessageView {
        MessageView { role: self.role@, content: self.content@ }
    }
}

/// The views of a list of messages.
pub open spec fn message_views(messages: Seq<Message>) -> Seq<MessageView> {
    Seq::new(messages.len(), |i: int| messages[i]@)
}

/// The views of a list of tool definitions.
pub open spec fn tool_views(tools: Seq<ToolDefinition>) -> Seq<ToolDefinitionView> {
    Seq::new(tools.len(), |i: int| tools[i]@)
}

/// The views of a list of images.
pub open spec fn image_views(images: Seq<ImageSource>) -> Seq<ImageView> {
    Seq::new(images.len(), |i: int| images[i]@)
}

/// A user message of plain text.
pub open spec fn user_text(text: Seq<char>) -> MessageView {
    MessageView { role: "user"@, content: ContentView::Text(text) }
}

/// An assistant message of plain text.
pub open spec fn assistant_plain(text: Seq<char>) -> MessageView {
    MessageView { role: "assistant"@, content: ContentView::Text(text) }
}

/// A message of blocks in the given role.
pub open spec fn blocks_of(role: Seq<char>, blocks: Seq<BlockView>) -> MessageView {
    MessageView { role, content: ContentView::Blocks(blocks) }
}

/// The blocks of a user message that shows images.
pub open spec fn image_blocks(text: Seq<char>, images: Seq<ImageView>) -> Seq<BlockView> {
    seq![BlockView::Text { text }] + Seq::new(
        images.len(),
        |i: int| BlockView::Image { source: images[i] },
    )
}

/// Equal JSON values, one by one.
pub fn duplicate_json_list(items: &Vec<Json>) -> (r: Vec<Json>)
    ensures
        json_views(r@) == json_views(items@),
{
    let mut out: Vec<Json> = Vec::new();
    let mut i: usize = 0;
    while i < items.len()
        invariant
            i == out@.len(),
            i <= items@.len(),
            forall|k: int| 0 <= k < i ==> out@[k]@ == items@[k]@,
        decreases items.len() - i,
    {
        out.push(items[i].duplicate());
        i = i + 1;
    }
    assert(json_views(out@) =~= json_views(items@));
    out
}

impl ImageSource {
    /// An equal image.
    pub fn duplicate(&self) -> (r: ImageSource)
        ensures
            r@ == self@,
    {
        ImageSource {
            source_type: self.source_type.clone(),
            media_type: self.media_type.clone(),
            data: self.data.clone(),
        }
    }
}

impl ContentBlock {
    /// An equal block.
    pub fn duplicate(&self) -> (r: ContentBlock)
        ensures
            r@ == self@,
    {
        match self {
            ContentBlock::Text { text } => ContentBlock::Text { text: text.clone() },
            ContentBlock::Image { source } => ContentBlock::Image { source: source.duplicate() },
            ContentBlock::Reasoning { text, details } => ContentBlock::Reasoning {
                text: match text {
                    Some(t) => Some(t.clone()),
                    None => None,
                },
                details: duplicate_json_list(details),
            },
            ContentBlock::ToolUse { id, name, input } => ContentBlock::ToolUse {
                id: id.clone(),
                name: name.clone(),
                input: input.duplicate(),
            },
            ContentBlock::ToolResult { tool_use_id, content, is_error } => ContentBlock::ToolResult {
                tool_use_id: tool_use_id.clone(),
                content: content.clone(),
                is_error: *is_error,
            },
        }
    }
}

/// Equal blocks, one by one.
pub fn duplicate_blocks(blocks: &Vec<ContentBlock>) -> (r: Vec<ContentBlock>)
    ensures
        block_views(r@) == block_views(blocks@),
{
    let mut out: Vec<ContentBlock> = Vec::new();
    let mut i: usize = 0;
    while i < blocks.len()
        invariant
            i == out@.len(),
            i <= blocks@.len(),
            forall|k: int| 0 <= k < i ==> out@[k]@ == blocks@[k]@,
        decreases blocks.len() - i,
    {
        out.push(blocks[i].duplicate());
        i = i + 1;
    }
    assert(block_views(out@) =~= block_views(blocks@));
    out
}

impl Message {
    /// A user message of plain text.
    pub fn user(text: &str) -> (r: Message)
        ensures
            r@ == user_text(text@),
    {
        Message { role: "user".to_owned(), content: MessageContent::Text(text.to_owned()) }
    }

    /// An assistant message of plain text.
    pub fn assistant_text(text: &str) -> (r: Message)
        ensures
            r@ == assistant_plain(text@),
    {
        Message { role: "assistant".to_owned(), content: MessageContent::Text(text.to_owned()) }
    }

    /// A user message that shows images after its text.
    pub fn user_with_images(text: &str, images: Vec<ImageSource>) -> (r: Message)
        ensures
            r@ == blocks_of("user"@, image_blocks(text@, image_views(images@))),
    {
        let ghost all = images@;
        let mut blocks: Vec<ContentBlock> = Vec::new();
        blocks.push(ContentBlock::Text { text: text.to_owned() });
        for source in it: images
            invariant
                it.seq() == all,
                blocks@.len() == it.index() + 1,
                blocks@[0]@ == (BlockView::Text { text: text@ }),
                forall|i: int|
                    1 <= i < blocks@.len() ==> (#[trigger] blocks@[i])@ == (BlockView::Image {
                        source: all[i - 1]@,
                    }),
        {
            blocks.push(ContentBlock::Image { source });
        }
        assert(block_views(blocks@) =~= image_blocks(text@, image_views(all)));
        Message { role: "user".to_owned(), content: MessageContent::Blocks(blocks) }
    }

    /// An assistant message of blocks.
    pub fn assistant_blocks(blocks: Vec<ContentBlock>) -> (r: Message)
        ensures
            r@ == blocks_of("assistant"@, block_views(blocks@)),
    {
        Message { role: "assistant".to_owned(), content: MessageContent::Blocks(blocks) }
    }

    /// A user message that carries tool results.
    pub fn tool_results(results: Vec<ContentBlock>) -> (r: Message)
        ensures
            r@ == blocks_of("user"@, block_views(results@)),
    {
        Message { role: "user".to_owned(), content: MessageContent::Blocks(results) }
    }

    /// An equal message.
    pub fn duplicate(&self) -> (r: Message)
        ensures
            r@ == self@,
    {
        Message {
            role: self.role.clone(),
            content: match &self.content {
                MessageContent::Text(s) => MessageContent::Text(s.clone()),
                MessageContent::Blocks(blocks) => MessageContent::Blocks(duplicate_blocks(blocks)),
            },
        }
    }
}

/// Equal messages, one by one.
pub fn duplicate_messages(messages: &[Message]) -> (r: Vec<Message>)
    ensures
        message_views(r@) == message_views(messages@),
{
    let mut out: Vec<Message> = Vec::new();
    let mut i: usize = 0;
    while i < messages.len()
        invariant
            i == out@.len(),
            i <= messages@.len(),
            forall|k: int| 0 <= k < i ==> out@[k]@ == messages@[k]@,
        decreases messages.len() - i,
    {
        out.push(messages[i].duplicate());
        i = i + 1;
    }
    assert(message_views(out@) =~= message_views(messages@));
    out
}

/// Token usage from the API.
pub struct Usage {
    /// Fresh, non-cached input tokens. Cache reads and writes are tracked in
    /// their own mutually exclusive fields.
    pub input_tokens: u32,
    pub output_tokens: u32,
    pub cache_read_tokens: u32,
    pub cache_creation_tokens: u32,
    /// What the provider reported as the charge for this request, in the order of
    /// arrival. The last report that is a number not below zero counts.
    pub cost_reports: Vec<Json>,
}

/// Token usage as a mathematical object.
pub struct UsageView {
    pub input_tokens: u32,
    pub output_tokens: u32,
    pub cache_read_tokens: u32,
    pub cache_creation_tokens: u32,
    pub cost_reports: Seq<JsonView>,
}

impl View for Usage {
    type V = UsageView;

    open spec fn view(&self) -> UsageView {
        UsageView {
            input_tokens: self.input_tokens,
            output_tokens: self.output_tokens,
            cache_read_tokens: self.cache_read_tokens,
            cache_creation_tokens: self.cache_creation_tokens,
            cost_reports: json_views(self.cost_reports@),
        }
    }
}

/// `a - b`, or zero.
pub open spec fn floored_difference(a: int, b: int) -> int {
    if a >= b {
        a - b
    } else {
        0
    }
}

/// OpenAI usage, whose top-level input count takes in the cached tokens, in mutually
/// exclusive token classes.
pub open spec fn openai_usage(
    input_tokens: u32,
    output_tokens: u32,
    cache_read_tokens: u32,
    cache_creation_tokens: u32,
    cost_reports: Seq<JsonView>,
) -> UsageView {
    UsageView {
        input_tokens: floored_difference(
            floored_difference(input_tokens as int, cache_read_tokens as int),
            cache_creation_tokens as int,
        ) as u32,
        output_tokens,
        cache_read_tokens,
        cache_creation_tokens,
        cost_reports,
    }
}

impl Usage {
    /// Normalizes OpenAI usage, whose top-level input count takes in the cached
    /// tokens, into mutually exclusive token classes.
    pub fn from_openai_totals(
        input_tokens: u32,
        output_tokens: u32,
        cache_read_tokens: u32,
        cache_creation_tokens: u32,
        cost_reports: Vec<Json>,
    ) -> (r: Usage)
        ensures
            r@ == openai_usage(
                input_tokens,
                output_tokens,
                cache_read_tokens,
                cache_creation_tokens,
                json_views(cost_reports@),
            ),
    {
        Usage {
            input_tokens: input_tokens.saturating_sub(cache_read_tokens).saturating_sub(
                cache_creation_tokens,
            ),
            output_tokens,
            cache_read_tokens,
            cache_creation_tokens,
            cost_reports,
        }
    }
}

} // verus!
