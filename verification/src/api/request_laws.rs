//! What can be read back from a request.

use vstd::prelude::*;
use crate::api::anthropic::{
    among_last_two_users, cached_text, ephemeral, headers_with, is_user, law_two_moving_breakpoints,
    marked_last, marked_message, marked_messages, plain_body, system_blocks, text_block, tools_json,
    users_after, with_breakpoints, with_field, SYSTEM_PROMPT_BLOCK_SEPARATOR,
};
use crate::api::openai_compat::{bearer_headers, without_trailing_slashes};
use crate::api::types::{BlockView, ContentView, MessageView, ToolDefinitionView};
use crate::api::wire::{
    block_json, block_of_json, blocks_json, blocks_of_json, content_json, content_of_json,
    law_block_round_trip, law_content_round_trip, message_json, messages_json,
};
use crate::config::AuthView;
use crate::json::{unsigned_number, JsonView};
use crate::text::{joined, occurs, occurs_at, split_parts};
use crate::text_laws::law_split;

verus! {

/// The names of fields are told apart by their lengths and their first characters.
pub proof fn lemma_field_names()
    ensures
        "id"@.len() == 2,
        "url"@.len() == 3,
        "name"@.len() == 4,
        "type"@.len() == 4,
        "role"@.len() == 4,
        "text"@.len() == 4,
        "data"@.len() == 4,
        "data"@[0] == 'd',
        "name"@[0] == 'n',
        "role"@[0] == 'r',
        "text"@[0] == 't',
        "text"@[1] == 'e',
        "type"@[0] == 't',
        "type"@[1] == 'y',
        "model"@.len() == 5,
        "tools"@.len() == 5,
        "input"@.len() == 5,
        "store"@.len() == 5,
        "input"@[0] == 'i',
        "model"@[0] == 'm',
        "store"@[0] == 's',
        "tools"@[0] == 't',
        "system"@.len() == 6,
        "stream"@.len() == 6,
        "strict"@.len() == 6,
        "output"@.len() == 6,
        "effort"@.len() == 6,
        "source"@.len() == 6,
        "effort"@[0] == 'e',
        "output"@[0] == 'o',
        "source"@[0] == 's',
        "source"@[1] == 'o',
        "stream"@[0] == 's',
        "stream"@[1] == 't',
        "stream"@[3] == 'e',
        "strict"@[0] == 's',
        "strict"@[1] == 't',
        "strict"@[3] == 'i',
        "system"@[0] == 's',
        "system"@[1] == 'y',
        "content"@.len() == 7,
        "call_id"@.len() == 7,
        "details"@.len() == 7,
        "call_id"@[0] == 'c',
        "call_id"@[1] == 'a',
        "content"@[0] == 'c',
        "content"@[1] == 'o',
        "details"@[0] == 'd',
        "messages"@.len() == 8,
        "function"@.len() == 8,
        "is_error"@.len() == 8,
        "function"@[0] == 'f',
        "is_error"@[0] == 'i',
        "messages"@[0] == 'm',
        "reasoning"@.len() == 9,
        "arguments"@.len() == 9,
        "image_url"@.len() == 9,
        "arguments"@[0] == 'a',
        "image_url"@[0] == 'i',
        "reasoning"@[0] == 'r',
        "max_tokens"@.len() == 10,
        "parameters"@.len() == 10,
        "tool_calls"@.len() == 10,
        "media_type"@.len() == 10,
        "max_tokens"@[0] == 'm',
        "max_tokens"@[1] == 'a',
        "media_type"@[0] == 'm',
        "media_type"@[1] == 'e',
        "parameters"@[0] == 'p',
        "tool_calls"@[0] == 't',
        "description"@.len() == 11,
        "tool_use_id"@.len() == 11,
        "description"@[0] == 'd',
        "tool_use_id"@[0] == 't',
        "instructions"@.len() == 12,
        "input_schema"@.len() == 12,
        "tool_call_id"@.len() == 12,
        "input_schema"@[0] == 'i',
        "input_schema"@[2] == 'p',
        "instructions"@[0] == 'i',
        "instructions"@[2] == 's',
        "tool_call_id"@[0] == 't',
        "cache_control"@.len() == 13,
        "include_usage"@.len() == 13,
        "cache_control"@[0] == 'c',
        "include_usage"@[0] == 'i',
        "stream_options"@.len() == 14,
        "max_output_tokens"@.len() == 17,
        "reasoning_details"@.len() == 17,
        "max_output_tokens"@[0] == 'm',
        "reasoning_details"@[0] == 'r',
        "previous_response_id"@.len() == 20,
{
    reveal_strlit("id");
    reveal_strlit("url");
    reveal_strlit("name");
    reveal_strlit("type");
    reveal_strlit("role");
    reveal_strlit("text");
    reveal_strlit("data");
    reveal_strlit("model");
    reveal_strlit("tools");
    reveal_strlit("input");
    reveal_strlit("store");
    reveal_strlit("system");
    reveal_strlit("stream");
    reveal_strlit("strict");
    reveal_strlit("output");
    reveal_strlit("effort");
    reveal_strlit("source");
    reveal_strlit("content");
    reveal_strlit("call_id");
    reveal_strlit("details");
    reveal_strlit("messages");
    reveal_strlit("function");
    reveal_strlit("is_error");
    reveal_strlit("reasoning");
    reveal_strlit("arguments");
    reveal_strlit("image_url");
    reveal_strlit("max_tokens");
    reveal_strlit("parameters");
    reveal_strlit("tool_calls");
    reveal_strlit("media_type");
    reveal_strlit("description");
    reveal_strlit("tool_use_id");
    reveal_strlit("instructions");
    reveal_strlit("input_schema");
    reveal_strlit("tool_call_id");
    reveal_strlit("cache_control");
    reveal_strlit("include_usage");
    reveal_strlit("stream_options");
    reveal_strlit("max_output_tokens");
    reveal_strlit("reasoning_details");
    reveal_strlit("previous_response_id");
}

/// The string in a field.
pub open spec fn text_at(value: JsonView, key: Seq<char>) -> Option<Seq<char>> {
    value.at(key).text()
}

/// Whether the tools of a request are those given: as many, in their order, each with its
/// name, its description and, under `schema_key`, its schema, whatever that is.
pub open spec fn offers_tools(
    items: Seq<JsonView>,
    tools: Seq<ToolDefinitionView>,
    schema_key: Seq<char>,
) -> bool {
    &&& items.len() == tools.len()
    &&& forall|i: int|
        0 <= i < tools.len() ==> {
            &&& text_at(#[trigger] items[i], "name"@) == Some(tools[i].name)
            &&& text_at(items[i], "description"@) == Some(tools[i].description)
            &&& items[i].get(schema_key) == Some(tools[i].input_schema)
        }
}

/// The body of a request to Anthropic.
pub open spec fn anthropic_body(
    model: Seq<char>,
    messages: Seq<MessageView>,
    system: Seq<char>,
    tools: Seq<ToolDefinitionView>,
    max_tokens: u32,
) -> JsonView {
    with_breakpoints(plain_body(model, messages, system, tools, max_tokens))
}

proof fn lemma_anthropic_fields(
    model: Seq<char>,
    messages: Seq<MessageView>,
    system: Seq<char>,
    tools: Seq<ToolDefinitionView>,
    max_tokens: u32,
)
    ensures
        ({
            let body = anthropic_body(model, messages, system, tools, max_tokens);
            &&& body is Object
            &&& body.get("model"@) == Some(JsonView::Text(model))
            &&& body.get("max_tokens"@) == Some(
                JsonView::Number(unsigned_number(max_tokens as u64)),
            )
            &&& body.get("stream"@) == Some(JsonView::Bool(true))
            &&& body.get("system"@) == Some(JsonView::Array(marked_last(system_blocks(system))))
            &&& body.get("messages"@) == Some(
                JsonView::Array(marked_messages(messages_json(messages))),
            )
            &&& body.get("tools"@) == if tools.len() > 0 {
                Some(JsonView::Array(tools_json(tools)))
            } else {
                None
            }
            &&& forall|key: Seq<char>|
                #![trigger body.get(key)]
                body.get(key) is Some ==> key == "model"@ || key == "max_tokens"@ || key
                    == "stream"@ || key == "system"@ || key == "messages"@ || key == "tools"@
        }),
{
    lemma_field_names();
    let plain = plain_body(model, messages, system, tools, max_tokens);
    assert(plain.get("system"@) == Some(JsonView::Array(system_blocks(system))));
    let one = with_field(
        plain,
        "system"@,
        JsonView::Array(marked_last(system_blocks(system))),
    );
    assert(plain.get("messages"@) == Some(JsonView::Array(messages_json(messages))));
    assert(one.get("messages"@) == Some(JsonView::Array(messages_json(messages))));
}

/// The settings of a request to Anthropic can be read back from it, and it has no other
/// fields than those of a request.
pub proof fn law_anthropic_settings(
    model: Seq<char>,
    messages: Seq<MessageView>,
    system: Seq<char>,
    tools: Seq<ToolDefinitionView>,
    max_tokens: u32,
)
    ensures
        ({
            let body = anthropic_body(model, messages, system, tools, max_tokens);
            &&& text_at(body, "model"@) == Some(model)
            &&& body.at("max_tokens"@) == JsonView::Number(unsigned_number(max_tokens as u64))
            &&& body.at("stream"@) == JsonView::Bool(true)
            &&& forall|key: Seq<char>|
                #![trigger body.get(key)]
                body.get(key) is Some ==> key == "model"@ || key == "max_tokens"@ || key
                    == "stream"@ || key == "system"@ || key == "messages"@ || key == "tools"@
        }),
{
    lemma_anthropic_fields(model, messages, system, tools, max_tokens);
}

/// The tools of a request to Anthropic can be read back from it. Without tools it has no
/// field for them.
pub proof fn law_anthropic_tools(
    model: Seq<char>,
    messages: Seq<MessageView>,
    system: Seq<char>,
    tools: Seq<ToolDefinitionView>,
    max_tokens: u32,
)
    ensures
        ({
            let body = anthropic_body(model, messages, system, tools, max_tokens);
            &&& tools.len() == 0 ==> body.get("tools"@) is None
            &&& tools.len() > 0 ==> {
                &&& body.at("tools"@).items() matches Some(items)
                &&& offers_tools(items, tools, "input_schema"@)
            }
        }),
{
    lemma_anthropic_fields(model, messages, system, tools, max_tokens);
    lemma_field_names();
    assert(offers_tools(tools_json(tools), tools, "input_schema"@));
}

/// A list of tools is that of one list of definitions only.
pub proof fn lemma_same_tools(
    items: Seq<JsonView>,
    a: Seq<ToolDefinitionView>,
    b: Seq<ToolDefinitionView>,
    schema_key: Seq<char>,
)
    requires
        offers_tools(items, a, schema_key),
        offers_tools(items, b, schema_key),
    ensures
        a == b,
{
    assert forall|i: int| 0 <= i < a.len() implies a[i] == b[i] by {
        assert(text_at(items[i], "name"@) == Some(a[i].name));
    }
    assert(a =~= b);
}

/// Two requests to Anthropic that are the same were made for the same model with the same
/// tools: tools that differ in a name, a description or a schema never make the same
/// request.
pub proof fn law_anthropic_tools_told_apart(
    model: Seq<char>,
    messages: Seq<MessageView>,
    system: Seq<char>,
    tools: Seq<ToolDefinitionView>,
    max_tokens: u32,
    other_model: Seq<char>,
    other_messages: Seq<MessageView>,
    other_system: Seq<char>,
    other_tools: Seq<ToolDefinitionView>,
    other_max_tokens: u32,
)
    requires
        anthropic_body(model, messages, system, tools, max_tokens) == anthropic_body(
            other_model,
            other_messages,
            other_system,
            other_tools,
            other_max_tokens,
        ),
    ensures
        tools == other_tools,
        model == other_model,
        system == other_system,
{
    law_anthropic_tools(model, messages, system, tools, max_tokens);
    law_anthropic_tools(other_model, other_messages, other_system, other_tools, other_max_tokens);
    law_anthropic_settings(model, messages, system, tools, max_tokens);
    law_anthropic_settings(
        other_model,
        other_messages,
        other_system,
        other_tools,
        other_max_tokens,
    );
    law_anthropic_system(model, messages, system, tools, max_tokens);
    law_anthropic_system(other_model, other_messages, other_system, other_tools, other_max_tokens);
    let body = anthropic_body(model, messages, system, tools, max_tokens);
    if tools.len() > 0 && other_tools.len() > 0 {
        lemma_same_tools(
            body.at("tools"@).items()->Some_0,
            tools,
            other_tools,
            "input_schema"@,
        );
    } else {
        assert(tools =~= other_tools);
    }
}

/// The strings in a field of values, one by one.
pub open spec fn texts_at(values: Seq<JsonView>, key: Seq<char>) -> Seq<Seq<char>> {
    Seq::new(values.len(), |i: int| text_at(values[i], key)->Some_0)
}

/// Whether a value carries the mark of a cache breakpoint.
pub open spec fn is_marked(value: JsonView) -> bool {
    text_at(value.at("cache_control"@), "type"@) == Some("ephemeral"@)
}

/// The system prompt of a request to Anthropic can be read back from it: its text blocks with
/// the separator between each two of them are the prompt, whole, and none of them has a
/// separator in it. The last of them, and no other, carries a cache breakpoint.
pub proof fn law_anthropic_system(
    model: Seq<char>,
    messages: Seq<MessageView>,
    system: Seq<char>,
    tools: Seq<ToolDefinitionView>,
    max_tokens: u32,
)
    ensures
        ({
            let body = anthropic_body(model, messages, system, tools, max_tokens);
            &&& body.at("system"@).items() matches Some(blocks)
            &&& blocks.len() > 0
            &&& joined(texts_at(blocks, "text"@), SYSTEM_PROMPT_BLOCK_SEPARATOR@) == system
            &&& forall|i: int|
                0 <= i < blocks.len() ==> {
                    &&& text_at(#[trigger] blocks[i], "type"@) == Some("text"@)
                    &&& text_at(blocks[i], "text"@) is Some
                    &&& is_marked(blocks[i]) <==> i == blocks.len() - 1
                    &&& blocks[i].get("cache_control"@) is Some <==> i == blocks.len() - 1
                    &&& !occurs(SYSTEM_PROMPT_BLOCK_SEPARATOR@, text_at(blocks[i], "text"@)->Some_0)
                }
        }),
{
    lemma_anthropic_fields(model, messages, system, tools, max_tokens);
    lemma_field_names();
    reveal_strlit("\n__CLAUX_BLOCK__\n");
    assert(SYSTEM_PROMPT_BLOCK_SEPARATOR@.len() > 0);
    let parts = split_parts(system, SYSTEM_PROMPT_BLOCK_SEPARATOR@);
    law_split(system, SYSTEM_PROMPT_BLOCK_SEPARATOR@);
    let plain = system_blocks(system);
    let blocks = marked_last(plain);
    assert forall|i: int| 0 <= i < blocks.len() implies {
        &&& text_at(#[trigger] blocks[i], "type"@) == Some("text"@)
        &&& text_at(blocks[i], "text"@) == Some(parts[i])
        &&& is_marked(blocks[i]) <==> i == blocks.len() - 1
        &&& blocks[i].get("cache_control"@) is Some <==> i == blocks.len() - 1
        &&& !occurs(SYSTEM_PROMPT_BLOCK_SEPARATOR@, parts[i])
    } by {
        assert(plain[i] == text_block(parts[i]));
        assert forall|j: int| !#[trigger] occurs_at(
            SYSTEM_PROMPT_BLOCK_SEPARATOR@,
            parts[i],
            j,
        ) by {}
        assert(ephemeral().at("type"@) == JsonView::Text("ephemeral"@));
    }
    assert(texts_at(blocks, "text"@) =~= parts);
}

/// Whether a message of a request holds the content given, where a plain text may stand as
/// the one text block that it amounts to.
pub open spec fn holds_content(form: JsonView, content: ContentView) -> bool {
    match content_of_json(form.at("content"@)) {
        Some(read) => read == content || (content matches ContentView::Text(text) && read
            == ContentView::Blocks(seq![BlockView::Text { text }])),
        None => false,
    }
}

/// Whether at most one message of the user stands behind the one at `i`.
pub open spec fn is_recent(messages: Seq<MessageView>, i: int) -> bool {
    forall|j: int, k: int|
        #![trigger messages[j], messages[k]]
        !(i < j < k < messages.len() && messages[j].role == "user"@ && messages[k].role == "user"@)
}

/// Whether the last content block of a message, and no other, carries a cache breakpoint.
pub open spec fn ends_in_breakpoint(form: JsonView) -> bool {
    match form.at("content"@).items() {
        Some(blocks) => blocks.len() > 0 && forall|i: int|
            0 <= i < blocks.len() ==> (is_marked(#[trigger] blocks[i]) <==> i == blocks.len() - 1),
        None => false,
    }
}

/// Whether no content block of a message carries a cache breakpoint.
pub open spec fn has_no_breakpoint(form: JsonView) -> bool {
    form.at("content"@).items() matches Some(blocks) ==> forall|i: int|
        0 <= i < blocks.len() ==> (#[trigger] blocks[i]).get("cache_control"@) is None
}

proof fn lemma_block_unmarked(block: BlockView)
    ensures
        block_json(block) is Object,
        block_json(block).get("cache_control"@) is None,
        block_of_json(with_field(block_json(block), "cache_control"@, ephemeral())) == Some(block),
        is_marked(with_field(block_json(block), "cache_control"@, ephemeral())),
{
    lemma_field_names();
    law_block_round_trip(block);
    let plain = block_json(block);
    let marked = with_field(plain, "cache_control"@, ephemeral());
    assert(marked.get("type"@) == plain.get("type"@));
    assert(marked.get("text"@) == plain.get("text"@));
    assert(marked.get("source"@) == plain.get("source"@));
    assert(marked.get("details"@) == plain.get("details"@));
    assert(marked.get("id"@) == plain.get("id"@));
    assert(marked.get("name"@) == plain.get("name"@));
    assert(marked.get("input"@) == plain.get("input"@));
    assert(marked.get("tool_use_id"@) == plain.get("tool_use_id"@));
    assert(marked.get("content"@) == plain.get("content"@));
    assert(marked.get("is_error"@) == plain.get("is_error"@));
    assert(ephemeral().at("type"@) == JsonView::Text("ephemeral"@));
}

proof fn lemma_users_after(messages: Seq<JsonView>, i: int) -> (j: int)
    requires
        users_after(messages, i) >= 1,
        0 <= i < messages.len(),
    ensures
        i < j < messages.len(),
        is_user(messages[j]),
        users_after(messages, j) >= users_after(messages, i) - 1,
    decreases messages.len() - i,
{
    if is_user(messages[i + 1]) {
        i + 1
    } else {
        lemma_users_after(messages, i + 1)
    }
}

proof fn lemma_recent(messages: Seq<MessageView>, i: int)
    requires
        0 <= i < messages.len(),
    ensures
        among_last_two_users(messages_json(messages), i) <==> messages[i].role == "user"@
            && is_recent(messages, i),
{
    lemma_field_names();
    let forms = messages_json(messages);
    assert forall|k: int| 0 <= k < messages.len() implies is_user(#[trigger] forms[k]) == (
    messages[k].role == "user"@) by {
        assert(forms[k].at("role"@) == JsonView::Text(messages[k].role));
    }
    assert(is_user(forms[i]) == (messages[i].role == "user"@));
    if messages[i].role == "user"@ {
        if !is_recent(messages, i) {
            let (j, k) = choose|j: int, k: int|
                #![trigger messages[j], messages[k]]
                i < j < k < messages.len() && messages[j].role == "user"@ && messages[k].role
                    == "user"@;
            assert(is_user(forms[j]) && is_user(forms[k]));
            law_two_moving_breakpoints(forms, i, j, k);
        } else if users_after(forms, i) >= 2 {
            let j = lemma_users_after(forms, i);
            let k = lemma_users_after(forms, j);
            assert(messages[j].role == "user"@ && messages[k].role == "user"@);
        }
    }
}

/// The messages of a request to Anthropic can be read back from it: as many as were given, in
/// their order, each with its role and its content. The last content block of each of the
/// last two messages of the user carries a cache breakpoint, and no other block does.
pub proof fn law_anthropic_messages(
    model: Seq<char>,
    messages: Seq<MessageView>,
    system: Seq<char>,
    tools: Seq<ToolDefinitionView>,
    max_tokens: u32,
)
    ensures
        ({
            let body = anthropic_body(model, messages, system, tools, max_tokens);
            &&& body.at("messages"@).items() matches Some(forms)
            &&& forms.len() == messages.len()
            &&& forall|i: int|
                0 <= i < messages.len() ==> {
                    &&& text_at(#[trigger] forms[i], "role"@) == Some(messages[i].role)
                    &&& holds_content(forms[i], messages[i].content)
                    &&& messages[i].role == "user"@ && is_recent(messages, i) ==> {
                        ||| ends_in_breakpoint(forms[i])
                        ||| messages[i].content == ContentView::Blocks(Seq::empty())
                    }
                    &&& !(messages[i].role == "user"@ && is_recent(messages, i))
                        ==> has_no_breakpoint(forms[i])
                }
        }),
{
    lemma_anthropic_fields(model, messages, system, tools, max_tokens);
    lemma_field_names();
    let plain = messages_json(messages);
    let forms = marked_messages(plain);
    assert forall|i: int| 0 <= i < messages.len() implies {
        &&& text_at(#[trigger] forms[i], "role"@) == Some(messages[i].role)
        &&& holds_content(forms[i], messages[i].content)
        &&& messages[i].role == "user"@ && is_recent(messages, i) ==> {
            ||| ends_in_breakpoint(forms[i])
            ||| messages[i].content == ContentView::Blocks(Seq::empty())
        }
        &&& !(messages[i].role == "user"@ && is_recent(messages, i)) ==> has_no_breakpoint(forms[i])
    } by {
        lemma_recent(messages, i);
        lemma_message_form(messages[i]);
    }
}

proof fn lemma_message_form(message: MessageView)
    ensures
        ({
            let plain = message_json(message);
            let marked = marked_message(plain);
            &&& text_at(plain, "role"@) == Some(message.role)
            &&& text_at(marked, "role"@) == Some(message.role)
            &&& holds_content(plain, message.content)
            &&& holds_content(marked, message.content)
            &&& has_no_breakpoint(plain)
            &&& ends_in_breakpoint(marked) || message.content == ContentView::Blocks(Seq::empty())
        }),
{
    lemma_field_names();
    law_content_round_trip(message.content);
    let plain = message_json(message);
    let marked = marked_message(plain);
    assert(plain.get("content"@) == Some(content_json(message.content)));
    match message.content {
        ContentView::Text(text) => {
            let block = BlockView::Text { text };
            lemma_block_unmarked(block);
            let form = cached_text(text);
            assert(form =~= with_field(block_json(block), "cache_control"@, ephemeral())) by {
                assert(form->Object_0 =~= block_json(block)->Object_0.insert(
                    "cache_control"@,
                    ephemeral(),
                ));
            }
            let items = seq![form];
            assert(marked.get("content"@) == Some(JsonView::Array(items)));
            assert(block_of_json(items[0]) == Some(block));
            assert(blocks_of_json(items)->Some_0 =~= seq![block]);
        },
        ContentView::Blocks(blocks) => {
            let items = blocks_json(blocks);
            let after = marked_last(items);
            assert(marked.get("content"@) == Some(JsonView::Array(after)));
            assert forall|i: int| 0 <= i < blocks.len() implies {
                &&& block_of_json(#[trigger] after[i]) == Some(blocks[i])
                &&& is_marked(after[i]) <==> i == blocks.len() - 1
                &&& items[i].get("cache_control"@) is None
            } by {
                lemma_block_unmarked(blocks[i]);
                law_block_round_trip(blocks[i]);
            }
            assert forall|i: int| 0 <= i < items.len() implies (#[trigger] items[i]).get(
                "cache_control"@,
            ) is None by {
                assert(block_of_json(after[i]) == Some(blocks[i]));
            }
            assert(blocks_of_json(after)->Some_0 =~= blocks);
            if blocks.len() == 0 {
                assert(blocks =~= Seq::empty());
            }
        },
    }
}

/// The JSON form of a content block has the fields that the API knows it by.
pub proof fn law_block_fields(block: BlockView)
    ensures
        ({
            let form = block_json(block);
            match block {
                BlockView::Text { text } => {
                    &&& text_at(form, "type"@) == Some("text"@)
                    &&& text_at(form, "text"@) == Some(text)
                },
                BlockView::Image { source } => {
                    &&& text_at(form, "type"@) == Some("image"@)
                    &&& text_at(form.at("source"@), "type"@) == Some(source.source_type)
                    &&& text_at(form.at("source"@), "media_type"@) == Some(source.media_type)
                    &&& text_at(form.at("source"@), "data"@) == Some(source.data)
                },
                BlockView::Reasoning { text, details } => {
                    &&& text_at(form, "type"@) == Some("reasoning"@)
                    &&& text_at(form, "text"@) == text
                    &&& details.len() > 0 ==> form.at("details"@).items() == Some(details)
                    &&& details.len() == 0 ==> form.get("details"@) is None
                },
                BlockView::ToolUse { id, name, input } => {
                    &&& text_at(form, "type"@) == Some("tool_use"@)
                    &&& text_at(form, "id"@) == Some(id)
                    &&& text_at(form, "name"@) == Some(name)
                    &&& form.get("input"@) == Some(input)
                },
                BlockView::ToolResult { tool_use_id, content, is_error } => {
                    &&& text_at(form, "type"@) == Some("tool_result"@)
                    &&& text_at(form, "tool_use_id"@) == Some(tool_use_id)
                    &&& text_at(form, "content"@) == Some(content)
                    &&& form.get("is_error"@) == match is_error {
                        Some(mark) => Some(JsonView::Bool(mark)),
                        None => None,
                    }
                },
            }
        }),
{
    lemma_field_names();
}

/// Whether a header of that name is sent, and with that value alone.
pub open spec fn sends(
    headers: Seq<(Seq<char>, Seq<char>)>,
    name: Seq<char>,
    value: Seq<char>,
) -> bool {
    &&& exists|i: int| 0 <= i < headers.len() && (#[trigger] headers[i]).0 == name
    &&& forall|i: int|
        0 <= i < headers.len() && (#[trigger] headers[i]).0 == name ==> headers[i].1 == value
}

/// Whether no header of that name is sent.
pub open spec fn sends_no(headers: Seq<(Seq<char>, Seq<char>)>, name: Seq<char>) -> bool {
    forall|i: int| 0 <= i < headers.len() ==> (#[trigger] headers[i]).0 != name
}

proof fn lemma_header_names()
    ensures
        "anthropic-version"@.len() == 17,
        "content-type"@.len() == 12,
        "x-api-key"@.len() == 9,
        "Authorization"@.len() == 13,
        "anthropic-beta"@.len() == 14,
{
    reveal_strlit("anthropic-version");
    reveal_strlit("content-type");
    reveal_strlit("x-api-key");
    reveal_strlit("Authorization");
    reveal_strlit("anthropic-beta");
}

/// A key is sent to Anthropic in the header for keys and a token in the one for authorization,
/// each in its own and never in the other's; and every request names its version and that its
/// body is JSON.
pub proof fn law_anthropic_headers(auth: AuthView)
    ensures
        ({
            let headers = headers_with(auth);
            &&& sends(headers, "anthropic-version"@, "2023-06-01"@)
            &&& sends(headers, "content-type"@, "application/json"@)
            &&& match auth {
                AuthView::ApiKey(key) => sends(headers, "x-api-key"@, key) && sends_no(
                    headers,
                    "Authorization"@,
                ) && sends_no(headers, "anthropic-beta"@),
                AuthView::OAuthToken(token) => sends(
                    headers,
                    "Authorization"@,
                    "Bearer "@ + token,
                ) && sends_no(headers, "x-api-key"@) && sends(
                    headers,
                    "anthropic-beta"@,
                    "oauth-2025-04-20"@,
                ),
            }
        }),
{
    lemma_header_names();
    let headers = headers_with(auth);
    assert(headers[0].0 == "anthropic-version"@);
    assert(headers[1].0 == "content-type"@);
    match auth {
        AuthView::ApiKey(key) => {
            assert(headers[2].0 == "x-api-key"@);
        },
        AuthView::OAuthToken(token) => {
            assert(headers[2].0 == "Authorization"@);
            assert(headers[3].0 == "anthropic-beta"@);
        },
    }
}

/// A key is sent to the other providers in the header for authorization, and none where there
/// is no key; and every request tells that its body is JSON.
pub proof fn law_bearer_headers(api_key: Seq<char>)
    ensures
        sends(bearer_headers(api_key), "content-type"@, "application/json"@),
        api_key.len() > 0 ==> sends(
            bearer_headers(api_key),
            "Authorization"@,
            "Bearer "@ + api_key,
        ),
        api_key.len() == 0 ==> sends_no(bearer_headers(api_key), "Authorization"@),
{
    lemma_header_names();
    let headers = bearer_headers(api_key);
    assert(headers[0].0 == "content-type"@);
    if api_key.len() > 0 {
        assert(headers[1].0 == "Authorization"@);
    }
}

/// The root of a provider is its URL without the slashes at its end, however many there are:
/// nothing else is cut off, and no slash is left there.
pub proof fn law_trailing_slashes(url: Seq<char>, slashes: nat)
    requires
        url.len() == 0 || url.last() != '/',
    ensures
        without_trailing_slashes(url + Seq::new(slashes, |i: int| '/')) == url,
    decreases slashes,
{
    let all = Seq::new(slashes, |i: int| '/');
    if slashes == 0 {
        assert(url + all =~= url);
    } else {
        let fewer = (slashes - 1) as nat;
        law_trailing_slashes(url, fewer);
        assert((url + all).drop_last() =~= url + Seq::new(fewer, |i: int| '/'));
        assert((url + all).last() == '/');
    }
}

} // verus!
