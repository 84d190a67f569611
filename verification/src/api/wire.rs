//! The JSON form of messages, as sent to Anthropic and as stored with a session.

use vstd::prelude::*;
use crate::api::types::{
    block_views, message_views, BlockView, ContentBlock, ContentView, ImageSource, ImageView,
    Message, MessageContent, MessageView,
};
use crate::json::{json_views, push_field, Json, JsonView};
use crate::text;

verus! {

/// The JSON form of an image.
pub open spec fn image_json(image: ImageView) -> JsonView {
    JsonView::Object(
        map![
            "type"@ => JsonView::Text(image.source_type),
            "media_type"@ => JsonView::Text(image.media_type),
            "data"@ => JsonView::Text(image.data),
        ],
    )
}

/// The JSON form of a content block.
pub open spec fn block_json(block: BlockView) -> JsonView {
    match block {
        BlockView::Text { text } => JsonView::Object(
            map!["type"@ => JsonView::Text("text"@), "text"@ => JsonView::Text(text)],
        ),
        BlockView::Image { source } => JsonView::Object(
            map!["type"@ => JsonView::Text("image"@), "source"@ => image_json(source)],
        ),
        BlockView::Reasoning { text, details } => {
            let tag = map!["type"@ => JsonView::Text("reasoning"@)];
            let with_text = match text {
                Some(t) => tag.insert("text"@, JsonView::Text(t)),
                None => tag,
            };
            JsonView::Object(
                if details.len() > 0 {
                    with_text.insert("details"@, JsonView::Array(details))
                } else {
                    with_text
                },
            )
        },
        BlockView::ToolUse { id, name, input } => JsonView::Object(
            map![
                "type"@ => JsonView::Text("tool_use"@),
                "id"@ => JsonView::Text(id),
                "name"@ => JsonView::Text(name),
                "input"@ => input,
            ],
        ),
        BlockView::ToolResult { tool_use_id, content, is_error } => {
            let plain =
                map![
                "type"@ => JsonView::Text("tool_result"@),
                "tool_use_id"@ => JsonView::Text(tool_use_id),
                "content"@ => JsonView::Text(content),
            ];
            JsonView::Object(
                match is_error {
                    Some(b) => plain.insert("is_error"@, JsonView::Bool(b)),
                    None => plain,
                },
            )
        },
    }
}

/// The JSON forms of a list of blocks.
pub open spec fn blocks_json(blocks: Seq<BlockView>) -> Seq<JsonView> {
    Seq::new(blocks.len(), |i: int| block_json(blocks[i]))
}

/// The JSON form of message content.
pub open spec fn content_json(content: ContentView) -> JsonView {
    match content {
        ContentView::Text(s) => JsonView::Text(s),
        ContentView::Blocks(blocks) => JsonView::Array(blocks_json(blocks)),
    }
}

/// The JSON form of a message.
pub open spec fn message_json(message: MessageView) -> JsonView {
    JsonView::Object(
        map!["role"@ => JsonView::Text(message.role), "content"@ => content_json(message.content)],
    )
}

/// The JSON forms of a list of messages.
pub open spec fn messages_json(messages: Seq<MessageView>) -> Seq<JsonView> {
    Seq::new(messages.len(), |i: int| message_json(messages[i]))
}

impl ImageSource {
    /// The JSON form of the image.
    pub fn to_json(&self) -> (r: Json)
        ensures
            r@ == image_json(self@),
    {
        let mut fields: Vec<(String, Json)> = Vec::new();
        push_field(&mut fields, "type", Json::text(self.source_type.as_str()));
        push_field(&mut fields, "media_type", Json::text(self.media_type.as_str()));
        push_field(&mut fields, "data", Json::text(self.data.as_str()));
        Json::Object(fields)
    }
}

impl ContentBlock {
    /// The JSON form of the block.
    pub fn to_json(&self) -> (r: Json)
        ensures
            r@ == block_json(self@),
    {
        let mut fields: Vec<(String, Json)> = Vec::new();
        match self {
            ContentBlock::Text { text } => {
                push_field(&mut fields, "type", Json::text("text"));
                push_field(&mut fields, "text", Json::text(text.as_str()));
            },
            ContentBlock::Image { source } => {
                push_field(&mut fields, "type", Json::text("image"));
                push_field(&mut fields, "source", source.to_json());
            },
            ContentBlock::Reasoning { text, details } => {
                push_field(&mut fields, "type", Json::text("reasoning"));
                match text {
                    Some(t) => {
                        push_field(&mut fields, "text", Json::text(t.as_str()));
                    },
                    None => {},
                }
                if details.len() > 0 {
                    push_field(
                        &mut fields,
                        "details",
                        Json::Array(crate::api::types::duplicate_json_list(details)),
                    );
                }
            },
            ContentBlock::ToolUse { id, name, input } => {
                push_field(&mut fields, "type", Json::text("tool_use"));
                push_field(&mut fields, "id", Json::text(id.as_str()));
                push_field(&mut fields, "name", Json::text(name.as_str()));
                push_field(&mut fields, "input", input.duplicate());
            },
            ContentBlock::ToolResult { tool_use_id, content, is_error } => {
                push_field(&mut fields, "type", Json::text("tool_result"));
                push_field(&mut fields, "tool_use_id", Json::text(tool_use_id.as_str()));
                push_field(&mut fields, "content", Json::text(content.as_str()));
                match is_error {
                    Some(b) => {
                        push_field(&mut fields, "is_error", Json::Bool(*b));
                    },
                    None => {},
                }
            },
        }
        Json::Object(fields)
    }
}

impl MessageContent {
    /// The JSON form of the content.
    pub fn to_json(&self) -> (r: Json)
        ensures
            r@ == content_json(self@),
    {
        match self {
            MessageContent::Text(s) => Json::text(s.as_str()),
            MessageContent::Blocks(blocks) => {
                let mut out: Vec<Json> = Vec::new();
                let mut i: usize = 0;
                while i < blocks.len()
                    invariant
                        i == out@.len(),
                        i <= blocks@.len(),
                        forall|k: int| 0 <= k < i ==> out@[k]@ == block_json(blocks@[k]@),
                    decreases blocks.len() - i,
                {
                    out.push(blocks[i].to_json());
                    i = i + 1;
                }
                assert(json_views(out@) =~= blocks_json(block_views(blocks@)));
                Json::Array(out)
            },
        }
    }
}

impl Message {
    /// The JSON form of the message.
    pub fn to_json(&self) -> (r: Json)
        ensures
            r@ == message_json(self@),
    {
        let mut fields: Vec<(String, Json)> = Vec::new();
        push_field(&mut fields, "role", Json::text(self.role.as_str()));
        push_field(&mut fields, "content", self.content.to_json());
        Json::Object(fields)
    }
}

/// The JSON forms of a list of messages.
pub fn messages_to_json(messages: &[Message]) -> (r: Vec<Json>)
    ensures
        json_views(r@) == messages_json(message_views(messages@)),
{
    let mut out: Vec<Json> = Vec::new();
    let mut i: usize = 0;
    while i < messages.len()
        invariant
            i == out@.len(),
            i <= messages@.len(),
            forall|k: int| 0 <= k < i ==> out@[k]@ == message_json(messages@[k]@),
        decreases messages.len() - i,
    {
        out.push(messages[i].to_json());
        i = i + 1;
    }
    assert(json_views(out@) =~= messages_json(message_views(messages@)));
    out
}


/// The optional string in a field that may be missing or null.
pub open spec fn optional_text(field: Option<JsonView>) -> Option<Option<Seq<char>>> {
    match field {
        None => Some(None),
        Some(JsonView::Null) => Some(None),
        Some(JsonView::Text(t)) => Some(Some(t)),
        _ => None,
    }
}

/// The optional boolean in a field that may be missing or null.
pub open spec fn optional_bool(field: Option<JsonView>) -> Option<Option<bool>> {
    match field {
        None => Some(None),
        Some(JsonView::Null) => Some(None),
        Some(JsonView::Bool(b)) => Some(Some(b)),
        _ => None,
    }
}

/// The list in a field that may be missing.
pub open spec fn optional_items(field: Option<JsonView>) -> Option<Seq<JsonView>> {
    match field {
        None => Some(Seq::empty()),
        Some(JsonView::Array(s)) => Some(s),
        _ => None,
    }
}

/// The image that a JSON value is the form of.
pub open spec fn image_of_json(j: JsonView) -> Option<ImageView> {
    match (j.at("type"@).text(), j.at("media_type"@).text(), j.at("data"@).text()) {
        (Some(source_type), Some(media_type), Some(data)) => Some(
            ImageView { source_type, media_type, data },
        ),
        _ => None,
    }
}

/// The content block that a JSON value is the form of.
pub open spec fn block_of_json(j: JsonView) -> Option<BlockView> {
    match j.at("type"@).text() {
        None => None,
        Some(tag) => if tag == "text"@ {
            match j.at("text"@).text() {
                Some(text) => Some(BlockView::Text { text }),
                None => None,
            }
        } else if tag == "image"@ {
            match image_of_json(j.at("source"@)) {
                Some(source) => Some(BlockView::Image { source }),
                None => None,
            }
        } else if tag == "reasoning"@ {
            match (optional_text(j.get("text"@)), optional_items(j.get("details"@))) {
                (Some(text), Some(details)) => Some(BlockView::Reasoning { text, details }),
                _ => None,
            }
        } else if tag == "tool_use"@ {
            match (j.at("id"@).text(), j.at("name"@).text(), j.get("input"@)) {
                (Some(id), Some(name), Some(input)) => Some(BlockView::ToolUse { id, name, input }),
                _ => None,
            }
        } else if tag == "tool_result"@ {
            match (
                j.at("tool_use_id"@).text(),
                j.at("content"@).text(),
                optional_bool(j.get("is_error"@)),
            ) {
                (Some(tool_use_id), Some(content), Some(is_error)) => Some(
                    BlockView::ToolResult { tool_use_id, content, is_error },
                ),
                _ => None,
            }
        } else {
            None
        },
    }
}

/// The blocks that a list of JSON values is the form of: all of them, or none.
pub open spec fn blocks_of_json(items: Seq<JsonView>) -> Option<Seq<BlockView>> {
    if forall|i: int| 0 <= i < items.len() ==> block_of_json(#[trigger] items[i]) is Some {
        Some(Seq::new(items.len(), |i: int| block_of_json(items[i])->Some_0))
    } else {
        None
    }
}

/// The message content that a JSON value is the form of.
pub open spec fn content_of_json(j: JsonView) -> Option<ContentView> {
    match j {
        JsonView::Text(s) => Some(ContentView::Text(s)),
        JsonView::Array(items) => match blocks_of_json(items) {
            Some(blocks) => Some(ContentView::Blocks(blocks)),
            None => None,
        },
        _ => None,
    }
}

impl ImageSource {
    /// Reads an image in its JSON form.
    pub fn from_json(j: &Json) -> (r: Option<ImageSource>)
        ensures
            r is Some <==> image_of_json(j@) is Some,
            r matches Some(image) ==> image_of_json(j@) == Some(image@),
    {
        match (j.text_at("type"), j.text_at("media_type"), j.text_at("data")) {
            (Some(source_type), Some(media_type), Some(data)) => Some(
                ImageSource {
                    source_type: source_type.to_owned(),
                    media_type: media_type.to_owned(),
                    data: data.to_owned(),
                },
            ),
            _ => None,
        }
    }
}

fn read_optional_text(field: Option<&Json>) -> (r: Option<Option<String>>)
    ensures
        ({
            let view = match field {
                Some(j) => Some(j@),
                None => None,
            };
            match r {
                Some(Some(t)) => optional_text(view) == Some(Some(t@)),
                Some(None) => optional_text(view) == Some(None::<Seq<char>>),
                None => optional_text(view) is None,
            }
        }),
{
    match field {
        None => Some(None),
        Some(Json::Null) => Some(None),
        Some(Json::Text(t)) => Some(Some(t.clone())),
        _ => None,
    }
}

impl ContentBlock {
    /// Reads a content block in its JSON form.
    pub fn from_json(j: &Json) -> (r: Option<ContentBlock>)
        ensures
            r is Some <==> block_of_json(j@) is Some,
            r matches Some(block) ==> block_of_json(j@) == Some(block@),
    {
        let tag = match j.text_at("type") {
            Some(t) => t,
            None => return None,
        };
        if text::same(tag, "text") {
            match j.text_at("text") {
                Some(t) => Some(ContentBlock::Text { text: t.to_owned() }),
                None => None,
            }
        } else if text::same(tag, "image") {
            let null = Json::Null;
            let source = match j.get("source") {
                Some(s) => s,
                None => &null,
            };
            match ImageSource::from_json(source) {
                Some(source) => Some(ContentBlock::Image { source }),
                None => None,
            }
        } else if text::same(tag, "reasoning") {
            let text = match read_optional_text(j.get("text")) {
                Some(t) => t,
                None => return None,
            };
            let details = match j.get("details") {
                None => {
                    let none: Vec<Json> = Vec::new();
                    assert(json_views(none@) =~= Seq::empty());
                    none
                },
                Some(Json::Array(items)) => crate::api::types::duplicate_json_list(items),
                _ => return None,
            };
            Some(ContentBlock::Reasoning { text, details })
        } else if text::same(tag, "tool_use") {
            match (j.text_at("id"), j.text_at("name"), j.get("input")) {
                (Some(id), Some(name), Some(input)) => Some(
                    ContentBlock::ToolUse {
                        id: id.to_owned(),
                        name: name.to_owned(),
                        input: input.duplicate(),
                    },
                ),
                _ => None,
            }
        } else if text::same(tag, "tool_result") {
            let is_error = match j.get("is_error") {
                None => None,
                Some(Json::Null) => None,
                Some(Json::Bool(b)) => Some(*b),
                _ => return None,
            };
            match (j.text_at("tool_use_id"), j.text_at("content")) {
                (Some(tool_use_id), Some(content)) => Some(
                    ContentBlock::ToolResult {
                        tool_use_id: tool_use_id.to_owned(),
                        content: content.to_owned(),
                        is_error,
                    },
                ),
                _ => None,
            }
        } else {
            None
        }
    }
}

impl MessageContent {
    /// Reads message content in its JSON form.
    pub fn from_json(j: &Json) -> (r: Option<MessageContent>)
        ensures
            r is Some <==> content_of_json(j@) is Some,
            r matches Some(content) ==> content_of_json(j@) == Some(content@),
    {
        match j {
            Json::Text(s) => Some(MessageContent::Text(s.clone())),
            Json::Array(items) => {
                let mut out: Vec<ContentBlock> = Vec::new();
                let mut i: usize = 0;
                while i < items.len()
                    invariant
                        i == out@.len(),
                        i <= items@.len(),
                        j@ == JsonView::Array(json_views(items@)),
                        forall|k: int|
                            0 <= k < i ==> block_of_json(#[trigger] json_views(items@)[k]) == Some(
                                out@[k]@,
                            ),
                    decreases items.len() - i,
                {
                    match ContentBlock::from_json(&items[i]) {
                        Some(block) => {
                            out.push(block);
                        },
                        None => {
                            assert(block_of_json(json_views(items@)[i as int]) is None);
                            return None;
                        },
                    }
                    i = i + 1;
                }
                assert(blocks_of_json(json_views(items@)) is Some);
                assert(block_views(out@) =~= blocks_of_json(json_views(items@))->Some_0);
                Some(MessageContent::Blocks(out))
            },
            _ => None,
        }
    }
}

proof fn lemma_field_names()
    ensures
        "type"@ != "text"@,
        "type"@ != "source"@,
        "type"@ != "details"@,
        "type"@ != "id"@,
        "type"@ != "name"@,
        "type"@ != "input"@,
        "type"@ != "tool_use_id"@,
        "type"@ != "content"@,
        "type"@ != "is_error"@,
        "type"@ != "media_type"@,
        "type"@ != "data"@,
        "media_type"@ != "data"@,
        "text"@ != "details"@,
        "id"@ != "name"@,
        "id"@ != "input"@,
        "name"@ != "input"@,
        "tool_use_id"@ != "content"@,
        "tool_use_id"@ != "is_error"@,
        "content"@ != "is_error"@,
        "role"@ != "content"@,
{
    reveal_strlit("type");
    reveal_strlit("text");
    reveal_strlit("source");
    reveal_strlit("details");
    reveal_strlit("id");
    reveal_strlit("name");
    reveal_strlit("input");
    reveal_strlit("tool_use_id");
    reveal_strlit("content");
    reveal_strlit("is_error");
    reveal_strlit("media_type");
    reveal_strlit("data");
    reveal_strlit("role");
    assert("type"@.len() == 4);
    assert("text"@.len() == 4);
    assert("source"@.len() == 6);
    assert("details"@.len() == 7);
    assert("id"@.len() == 2);
    assert("name"@.len() == 4);
    assert("input"@.len() == 5);
    assert("tool_use_id"@.len() == 11);
    assert("content"@.len() == 7);
    assert("is_error"@.len() == 8);
    assert("media_type"@.len() == 10);
    assert("data"@.len() == 4);
    assert("role"@.len() == 4);
    assert("type"@[1] != "text"@[1]);
    assert("type"@[0] != "name"@[0]);
    assert("type"@[0] != "data"@[0]);
}

proof fn lemma_tags()
    ensures
        "text"@ != "image"@,
        "text"@ != "reasoning"@,
        "text"@ != "tool_use"@,
        "text"@ != "tool_result"@,
        "image"@ != "reasoning"@,
        "image"@ != "tool_use"@,
        "image"@ != "tool_result"@,
        "reasoning"@ != "tool_use"@,
        "reasoning"@ != "tool_result"@,
        "tool_use"@ != "tool_result"@,
{
    reveal_strlit("text");
    reveal_strlit("image");
    reveal_strlit("reasoning");
    reveal_strlit("tool_use");
    reveal_strlit("tool_result");
    assert("text"@.len() == 4);
    assert("image"@.len() == 5);
    assert("reasoning"@.len() == 9);
    assert("tool_use"@.len() == 8);
    assert("tool_result"@.len() == 11);
}

/// Reading a content block back from its JSON form gives the block.
pub proof fn law_block_round_trip(block: BlockView)
    ensures
        block_of_json(block_json(block)) == Some(block),
{
    lemma_field_names();
    lemma_tags();
    match block {
        BlockView::Image { source } => {
            assert(image_of_json(image_json(source)) == Some(source));
        },
        BlockView::Reasoning { text, details } => {
            if details.len() == 0 {
                assert(details =~= Seq::empty());
            }
        },
        _ => {},
    }
}

/// Reading message content back from its JSON form gives the content: a stored
/// conversation is loaded as it was.
pub proof fn law_content_round_trip(content: ContentView)
    ensures
        content_of_json(content_json(content)) == Some(content),
{
    match content {
        ContentView::Text(s) => {},
        ContentView::Blocks(blocks) => {
            let items = blocks_json(blocks);
            assert forall|i: int| 0 <= i < items.len() implies block_of_json(#[trigger] items[i])
                == Some(blocks[i]) by {
                law_block_round_trip(blocks[i]);
            }
            assert(blocks_of_json(items)->Some_0 =~= blocks);
        },
    }
}

} // verus!
