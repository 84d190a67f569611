//! What can be read back from a request in one of the OpenAI formats.

use vstd::prelude::*;
use crate::api::openai_compat::{
    calling_message, chat_body, chat_history, chat_messages, chat_request, function_tools,
    image_part, plain_message, sorted_blocks, text_parts, tool_call, tool_message,
};
use crate::api::openai_responses::{
    block_texts, blocks_input, call_output, conversation_input, message_input, response_body,
    response_tools, told_call, told_result, CursorView,
};
use crate::api::request_laws::{lemma_field_names, lemma_same_tools, offers_tools, text_at};
use crate::api::types::{BlockView, ContentView, MessageView, ToolDefinitionView};
use crate::content::{
    answers_in, calls_in, images_in, texts_in, thoughts_in, ThoughtView,
};
use crate::json::{rendered_json, unsigned_number, JsonView};
use crate::text::{joined, occurs};
use crate::text_laws::lemma_between;

verus! {

/// The text of reasoning, put together.
pub open spec fn thought_text(thoughts: Seq<ThoughtView>) -> Seq<char>
    decreases thoughts.len(),
{
    if thoughts.len() == 0 {
        Seq::empty()
    } else {
        match thoughts.last().text {
            Some(text) => thought_text(thoughts.drop_last()) + text,
            None => thought_text(thoughts.drop_last()),
        }
    }
}

/// The details of reasoning, in order.
pub open spec fn thought_details(thoughts: Seq<ThoughtView>) -> Seq<JsonView>
    decreases thoughts.len(),
{
    if thoughts.len() == 0 {
        Seq::empty()
    } else {
        thought_details(thoughts.drop_last()) + thoughts.last().details
    }
}

proof fn lemma_sorted(blocks: Seq<BlockView>)
    ensures
        ({
            let s = sorted_blocks(blocks);
            let calls = calls_in(blocks);
            let answers = answers_in(blocks);
            let images = images_in(blocks);
            &&& s.texts == texts_in(blocks)
            &&& s.calls.len() == calls.len()
            &&& forall|i: int|
                0 <= i < calls.len() ==> (#[trigger] s.calls[i]) == tool_call(
                    calls[i].id,
                    calls[i].name,
                    calls[i].input,
                )
            &&& s.results.len() == answers.len()
            &&& forall|i: int|
                0 <= i < answers.len() ==> (#[trigger] s.results[i]) == tool_message(
                    answers[i].id,
                    answers[i].content,
                )
            &&& s.images.len() == images.len()
            &&& forall|i: int|
                0 <= i < images.len() ==> (#[trigger] s.images[i]) == image_part(images[i])
            &&& s.reasoning_text == thought_text(thoughts_in(blocks))
            &&& s.reasoning_details == thought_details(thoughts_in(blocks))
        }),
    decreases blocks.len(),
{
    if blocks.len() > 0 {
        let init = blocks.drop_last();
        lemma_sorted(init);
        match blocks.last() {
            BlockView::Reasoning { text, details } => {
                let thought = ThoughtView { text, details };
                assert(thoughts_in(init).push(thought).drop_last() =~= thoughts_in(init));
            },
            _ => {},
        }
    }
}

/// Whether tool calls of a request are those given: as many, in their order, each with its
/// id, its name and its arguments as they are written out.
pub open spec fn asks_for_calls(items: Seq<JsonView>, blocks: Seq<BlockView>) -> bool {
    let calls = calls_in(blocks);
    &&& items.len() == calls.len()
    &&& forall|i: int|
        0 <= i < calls.len() ==> {
            let function = items[i].at("function"@);
            &&& text_at(#[trigger] items[i], "id"@) == Some(calls[i].id)
            &&& text_at(items[i], "type"@) == Some("function"@)
            &&& text_at(function, "name"@) == Some(calls[i].name)
            &&& text_at(function, "arguments"@) == Some(rendered_json(calls[i].input))
        }
}

/// Whether messages of a request are the tool results given: as many, in their order, each
/// with the id of its call and its content.
pub open spec fn gives_results(forms: Seq<JsonView>, blocks: Seq<BlockView>) -> bool {
    let answers = answers_in(blocks);
    &&& forms.len() == answers.len()
    &&& forall|i: int|
        0 <= i < answers.len() ==> {
            &&& text_at(#[trigger] forms[i], "role"@) == Some("tool"@)
            &&& text_at(forms[i], "tool_call_id"@) == Some(answers[i].id)
            &&& text_at(forms[i], "content"@) == Some(answers[i].content)
        }
}

/// Whether content parts of a request are the texts given and behind them the images.
pub open spec fn shows_parts(parts: Seq<JsonView>, blocks: Seq<BlockView>) -> bool {
    let texts = texts_in(blocks);
    let images = images_in(blocks);
    &&& parts.len() == texts.len() + images.len()
    &&& forall|i: int|
        0 <= i < texts.len() ==> {
            &&& text_at(#[trigger] parts[i], "type"@) == Some("text"@)
            &&& text_at(parts[i], "text"@) == Some(texts[i])
        }
    &&& forall|i: int|
        texts.len() <= i < parts.len() ==> {
            let image = images[i - texts.len()];
            let url = text_at((#[trigger] parts[i]).at("image_url"@), "url"@);
            &&& text_at(parts[i], "type"@) == Some("image_url"@)
            &&& url == Some("data:"@ + image.media_type + ";base64,"@ + image.data)
        }
}

/// A conversation in the chat completions format is the system prompt and behind it what its
/// messages become, in order: what a part of it becomes does not depend on the others.
pub proof fn law_chat_in_order(a: Seq<MessageView>, b: Seq<MessageView>, system: Seq<char>)
    ensures
        chat_history(a + b) == chat_history(a) + chat_history(b),
        chat_request(a, system).len() == chat_history(a).len() + 1,
        chat_request(a, system).drop_first() == chat_history(a),
        text_at(chat_request(a, system)[0], "role"@) == Some("system"@),
        text_at(chat_request(a, system)[0], "content"@) == Some(system),
    decreases b.len(),
{
    lemma_field_names();
    assert(chat_request(a, system).drop_first() =~= chat_history(a));
    if b.len() == 0 {
        assert(a + b =~= a);
        assert(chat_history(a) + chat_history(b) =~= chat_history(a));
    } else {
        law_chat_in_order(a, b.drop_last(), system);
        assert((a + b).drop_last() =~= a + b.drop_last());
        assert(chat_history(a + b) =~= chat_history(a) + chat_history(b));
    }
}

proof fn lemma_chat_one(message: MessageView)
    ensures
        chat_history(seq![message]) == chat_messages(message),
{
    assert(seq![message].drop_last() =~= Seq::empty());
    reveal_with_fuel(chat_history, 2);
    assert(chat_history(seq![message]) =~= chat_messages(message));
}

/// A message of plain text is one message of the same role and text in the chat completions
/// format.
pub proof fn law_chat_text(role: Seq<char>, text: Seq<char>)
    ensures
        ({
            let forms = chat_history(
                seq![MessageView { role, content: ContentView::Text(text) }],
            );
            &&& forms.len() == 1
            &&& text_at(forms[0], "role"@) == Some(role)
            &&& text_at(forms[0], "content"@) == Some(text)
        }),
{
    lemma_field_names();
    lemma_chat_one(MessageView { role, content: ContentView::Text(text) });
}

/// A message that calls tools is one message of the assistant in the chat completions format,
/// with all of its calls, its text where it has some, and its reasoning: the details where
/// there are any, else the text.
pub proof fn law_chat_calls(role: Seq<char>, blocks: Seq<BlockView>)
    requires
        calls_in(blocks).len() > 0,
    ensures
        ({
            let forms = chat_history(
                seq![MessageView { role, content: ContentView::Blocks(blocks) }],
            );
            let texts = texts_in(blocks);
            let thoughts = thoughts_in(blocks);
            &&& forms.len() == 1
            &&& text_at(forms[0], "role"@) == Some("assistant"@)
            &&& forms[0].at("tool_calls"@).items() matches Some(items)
            &&& asks_for_calls(items, blocks)
            &&& texts.len() > 0 ==> text_at(forms[0], "content"@) == Some(joined(texts, "\n"@))
            &&& texts.len() == 0 ==> forms[0].get("content"@) is None
            &&& if thought_details(thoughts).len() > 0 {
                &&& forms[0].at("reasoning_details"@).items() == Some(thought_details(thoughts))
                &&& forms[0].get("reasoning"@) is None
            } else {
                &&& forms[0].get("reasoning_details"@) is None
                &&& forms[0].get("reasoning"@) == if thought_text(thoughts).len() > 0 {
                    Some(JsonView::Text(thought_text(thoughts)))
                } else {
                    None
                }
            }
        }),
{
    lemma_field_names();
    lemma_sorted(blocks);
    lemma_chat_one(MessageView { role, content: ContentView::Blocks(blocks) });
    let s = sorted_blocks(blocks);
    let form = calling_message(s);
    assert(form.get("tool_calls"@) == Some(JsonView::Array(s.calls)));
    assert forall|i: int| 0 <= i < calls_in(blocks).len() implies {
        let function = s.calls[i].at("function"@);
        &&& text_at(#[trigger] s.calls[i], "id"@) == Some(calls_in(blocks)[i].id)
        &&& text_at(s.calls[i], "type"@) == Some("function"@)
        &&& text_at(function, "name"@) == Some(calls_in(blocks)[i].name)
        &&& text_at(function, "arguments"@) == Some(rendered_json(calls_in(blocks)[i].input))
    } by {
        let call = calls_in(blocks)[i];
        assert(s.calls[i] == tool_call(call.id, call.name, call.input));
    }
    assert(form.get("content"@) == if s.texts.len() > 0 {
        Some(JsonView::Text(joined(s.texts, "\n"@)))
    } else {
        None
    });
}

/// A message with tool results and no tool calls is one message for each result in the chat
/// completions format.
pub proof fn law_chat_results(role: Seq<char>, blocks: Seq<BlockView>)
    requires
        calls_in(blocks).len() == 0,
        answers_in(blocks).len() > 0,
    ensures
        gives_results(
            chat_history(seq![MessageView { role, content: ContentView::Blocks(blocks) }]),
            blocks,
        ),
{
    lemma_field_names();
    lemma_sorted(blocks);
    lemma_chat_one(MessageView { role, content: ContentView::Blocks(blocks) });
}

/// A message of texts and images is one message of the same role in the chat completions
/// format: with images, each text and each image is a part of its content; without, its
/// content is the texts, one in a line. A message with neither, that neither calls a tool
/// nor has a result, is left out.
pub proof fn law_chat_parts(role: Seq<char>, blocks: Seq<BlockView>)
    requires
        calls_in(blocks).len() == 0,
        answers_in(blocks).len() == 0,
    ensures
        ({
            let forms = chat_history(
                seq![MessageView { role, content: ContentView::Blocks(blocks) }],
            );
            let texts = texts_in(blocks);
            if images_in(blocks).len() > 0 {
                &&& forms.len() == 1
                &&& text_at(forms[0], "role"@) == Some(role)
                &&& forms[0].at("content"@).items() matches Some(parts)
                &&& shows_parts(parts, blocks)
            } else if texts.len() > 0 {
                &&& forms.len() == 1
                &&& text_at(forms[0], "role"@) == Some(role)
                &&& text_at(forms[0], "content"@) == Some(joined(texts, "\n"@))
            } else {
                forms.len() == 0
            }
        }),
{
    lemma_field_names();
    lemma_sorted(blocks);
    lemma_chat_one(MessageView { role, content: ContentView::Blocks(blocks) });
    let s = sorted_blocks(blocks);
    let parts = text_parts(s.texts) + s.images;
    let texts = texts_in(blocks);
    let images = images_in(blocks);
    assert forall|i: int| texts.len() <= i < parts.len() implies {
        let image = images[i - texts.len()];
        let url = text_at((#[trigger] parts[i]).at("image_url"@), "url"@);
        &&& text_at(parts[i], "type"@) == Some("image_url"@)
        &&& url == Some("data:"@ + image.media_type + ";base64,"@ + image.data)
    } by {
        assert(parts[i] == s.images[i - texts.len()]);
        assert(s.images[i - texts.len()] == image_part(images[i - texts.len()]));
    }
    if images.len() > 0 {
        assert(shows_parts(parts, blocks));
    }
}

/// The settings and the tools of a chat completions request can be read back from it, and it
/// carries the conversation.
pub proof fn law_chat_body(
    model: Seq<char>,
    reasoning_effort: Option<Seq<char>>,
    prompt_caching: bool,
    messages: Seq<MessageView>,
    system: Seq<char>,
    tools: Seq<ToolDefinitionView>,
    max_tokens: u32,
)
    ensures
        ({
            let body = chat_body(
                model,
                reasoning_effort,
                prompt_caching,
                messages,
                system,
                tools,
                max_tokens,
            );
            &&& text_at(body, "model"@) == Some(model)
            &&& body.at("max_tokens"@) == JsonView::Number(unsigned_number(max_tokens as u64))
            &&& body.at("stream"@) == JsonView::Bool(true)
            &&& body.at("stream_options"@).at("include_usage"@) == JsonView::Bool(true)
            &&& body.at("messages"@).items() == Some(chat_request(messages, system))
            &&& match reasoning_effort {
                Some(effort) => text_at(body.at("reasoning"@), "effort"@) == Some(effort),
                None => body.get("reasoning"@) is None,
            }
            &&& prompt_caching ==> text_at(body.at("cache_control"@), "type"@) == Some(
                "ephemeral"@,
            )
            &&& !prompt_caching ==> body.get("cache_control"@) is None
            &&& tools.len() == 0 ==> body.get("tools"@) is None
            &&& tools.len() > 0 ==> {
                &&& body.at("tools"@).items() matches Some(items)
                &&& items.len() == tools.len()
                &&& offers_tools(
                    Seq::new(items.len(), |i: int| items[i].at("function"@)),
                    tools,
                    "parameters"@,
                )
                &&& forall|i: int|
                    0 <= i < items.len() ==> text_at(#[trigger] items[i], "type"@) == Some(
                        "function"@,
                    )
            }
        }),
{
    lemma_field_names();
    let items = function_tools(tools);
    let functions = Seq::new(items.len(), |i: int| items[i].at("function"@));
    assert(offers_tools(functions, tools, "parameters"@));
    let body = chat_body(
        model,
        reasoning_effort,
        prompt_caching,
        messages,
        system,
        tools,
        max_tokens,
    );
    if tools.len() > 0 {
        assert(body.get("tools"@) == Some(JsonView::Array(items)));
    }
}

/// Two chat completions requests that are the same were made with the same tools.
pub proof fn law_chat_tools_told_apart(
    body: JsonView,
    tools: Seq<ToolDefinitionView>,
    other_tools: Seq<ToolDefinitionView>,
    model: Seq<char>,
    effort: Option<Seq<char>>,
    caching: bool,
    messages: Seq<MessageView>,
    system: Seq<char>,
    max_tokens: u32,
)
    requires
        body == chat_body(model, effort, caching, messages, system, tools, max_tokens),
        body == chat_body(model, effort, caching, messages, system, other_tools, max_tokens),
    ensures
        tools == other_tools,
{
    law_chat_body(model, effort, caching, messages, system, tools, max_tokens);
    law_chat_body(model, effort, caching, messages, system, other_tools, max_tokens);
    if tools.len() > 0 && other_tools.len() > 0 {
        let items = body.at("tools"@).items()->Some_0;
        lemma_same_tools(
            Seq::new(items.len(), |i: int| items[i].at("function"@)),
            tools,
            other_tools,
            "parameters"@,
        );
    } else {
        assert(tools =~= other_tools);
    }
}

/// What the messages of a conversation become in a Responses request, in order: what a part
/// of it becomes does not depend on the others.
pub proof fn law_responses_in_order(a: Seq<MessageView>, b: Seq<MessageView>, continuation: bool)
    ensures
        conversation_input(a + b, continuation) == conversation_input(a, continuation)
            + conversation_input(b, continuation),
    decreases b.len(),
{
    let first = conversation_input(a, continuation);
    if b.len() == 0 {
        assert(a + b =~= a);
        assert(first + conversation_input(b, continuation) =~= first);
    } else {
        law_responses_in_order(a, b.drop_last(), continuation);
        assert((a + b).drop_last() =~= a + b.drop_last());
        assert(conversation_input(a + b, continuation) =~= first + conversation_input(
            b,
            continuation,
        ));
    }
}

proof fn lemma_responses_one(message: MessageView, continuation: bool)
    ensures
        conversation_input(seq![message], continuation) == message_input(message, continuation),
{
    assert(seq![message].drop_last() =~= Seq::empty());
    reveal_with_fuel(conversation_input, 2);
    assert(conversation_input(seq![message], continuation) =~= message_input(
        message,
        continuation,
    ));
}

/// A message of plain text is one item of the same role and text in a Responses request.
pub proof fn law_responses_text(role: Seq<char>, text: Seq<char>, continuation: bool)
    ensures
        ({
            let items = conversation_input(
                seq![MessageView { role, content: ContentView::Text(text) }],
                continuation,
            );
            &&& items.len() == 1
            &&& text_at(items[0], "role"@) == Some(role)
            &&& text_at(items[0], "content"@) == Some(text)
        }),
{
    lemma_field_names();
    lemma_responses_one(MessageView { role, content: ContentView::Text(text) }, continuation);
}

proof fn lemma_block_texts(blocks: Seq<BlockView>)
    ensures
        block_texts(blocks) == texts_in(blocks),
    decreases blocks.len(),
{
    if blocks.len() > 0 {
        lemma_block_texts(blocks.drop_last());
    }
}

/// How many tool calls and tool results there are among blocks.
pub open spec fn exchanges_in(blocks: Seq<BlockView>) -> int {
    (calls_in(blocks).len() + answers_in(blocks).len()) as int
}

proof fn lemma_continued(blocks: Seq<BlockView>)
    ensures
        ({
            let items = blocks_input(blocks, true);
            let answers = answers_in(blocks);
            &&& items.len() == answers.len()
            &&& forall|i: int|
                0 <= i < answers.len() ==> (#[trigger] items[i]) == call_output(
                    answers[i].id,
                    answers[i].content,
                )
        }),
    decreases blocks.len(),
{
    if blocks.len() > 0 {
        lemma_continued(blocks.drop_last());
    }
}

proof fn lemma_told(blocks: Seq<BlockView>, k: int)
    requires
        0 <= k <= blocks.len(),
    ensures
        blocks_input(blocks, false).len() == exchanges_in(blocks),
        blocks_input(blocks.take(k), false).is_prefix_of(blocks_input(blocks, false)),
        blocks_input(blocks.take(k), false).len() == exchanges_in(blocks.take(k)),
        exchanges_in(blocks.take(k)) <= exchanges_in(blocks),
    decreases blocks.len(),
{
    if k == blocks.len() {
        assert(blocks.take(k) =~= blocks);
        if blocks.len() > 0 {
            lemma_told(blocks.drop_last(), blocks.len() - 1);
        }
    } else {
        lemma_told(blocks.drop_last(), k);
        assert(blocks.drop_last().take(k) =~= blocks.take(k));
    }
}

/// What a message of blocks becomes in a Responses request. Its texts come first, as one item
/// of its role. Where the request goes on from a response, each tool result follows as the
/// output of its call, and its calls, which the provider has, are left out. In a
/// conversation that is sent afresh, each call and each result follows, in order, told in
/// words.
pub proof fn law_responses_blocks(role: Seq<char>, blocks: Seq<BlockView>, continuation: bool)
    ensures
        ({
            let items = conversation_input(
                seq![MessageView { role, content: ContentView::Blocks(blocks) }],
                continuation,
            );
            let text = joined(texts_in(blocks), "\n"@);
            let n: int = if text.len() > 0 {
                1
            } else {
                0
            };
            let answers = answers_in(blocks);
            &&& text.len() > 0 ==> items.len() > 0 && text_at(items[0], "role"@) == Some(role)
                && text_at(items[0], "content"@) == Some(text)
            &&& continuation ==> {
                &&& items.len() == n + answers.len()
                &&& forall|i: int|
                    n <= i < items.len() ==> {
                        &&& text_at(#[trigger] items[i], "type"@) == Some("function_call_output"@)
                        &&& text_at(items[i], "call_id"@) == Some(answers[i - n].id)
                        &&& text_at(items[i], "output"@) == Some(answers[i - n].content)
                    }
            }
            &&& !continuation ==> {
                &&& items.len() == n + exchanges_in(blocks)
                &&& forall|k: int|
                    0 <= k < blocks.len() ==> {
                        let item = items[n + exchanges_in(blocks.take(k))];
                        let told = text_at(item, "content"@);
                        &&& (#[trigger] blocks[k]) matches BlockView::ToolUse { id, name, input }
                            ==> {
                            &&& text_at(item, "role"@) == Some("assistant"@)
                            &&& told matches Some(words)
                            &&& occurs(name, words)
                            &&& occurs(rendered_json(input), words)
                        }
                        &&& blocks[k] matches BlockView::ToolResult {
                            tool_use_id,
                            content,
                            is_error,
                        } ==> {
                            &&& text_at(item, "role"@) == Some("user"@)
                            &&& told matches Some(words)
                            &&& occurs(tool_use_id, words)
                            &&& occurs(content, words)
                        }
                    }
            }
        }),
{
    lemma_field_names();
    lemma_responses_one(MessageView { role, content: ContentView::Blocks(blocks) }, continuation);
    lemma_block_texts(blocks);
    let items = message_input(
        MessageView { role, content: ContentView::Blocks(blocks) },
        continuation,
    );
    let text = joined(texts_in(blocks), "\n"@);
    let n: int = if text.len() > 0 {
        1
    } else {
        0
    };
    let rest = blocks_input(blocks, continuation);
    assert forall|i: int| n <= i < items.len() implies #[trigger] items[i] == rest[i - n] by {}
    if continuation {
        lemma_continued(blocks);
        let answers = answers_in(blocks);
        assert forall|i: int| n <= i < items.len() implies {
            &&& text_at(#[trigger] items[i], "type"@) == Some("function_call_output"@)
            &&& text_at(items[i], "call_id"@) == Some(answers[i - n].id)
            &&& text_at(items[i], "output"@) == Some(answers[i - n].content)
        } by {
            assert(items[i] == rest[i - n]);
            assert(rest[i - n] == call_output(answers[i - n].id, answers[i - n].content));
        }
    } else {
        lemma_told(blocks, blocks.len() as int);
        assert forall|k: int| 0 <= k < blocks.len() implies {
            let item = items[n + exchanges_in(blocks.take(k))];
            let told = text_at(item, "content"@);
            &&& (#[trigger] blocks[k]) matches BlockView::ToolUse { id, name, input } ==> {
                &&& text_at(item, "role"@) == Some("assistant"@)
                &&& told matches Some(words)
                &&& occurs(name, words)
                &&& occurs(rendered_json(input), words)
            }
            &&& blocks[k] matches BlockView::ToolResult { tool_use_id, content, is_error } ==> {
                &&& text_at(item, "role"@) == Some("user"@)
                &&& told matches Some(words)
                &&& occurs(tool_use_id, words)
                &&& occurs(content, words)
            }
        } by {
            let at = exchanges_in(blocks.take(k));
            lemma_told(blocks, k);
            lemma_told(blocks, k + 1);
            let here = blocks.take(k + 1);
            assert(here.drop_last() =~= blocks.take(k));
            assert(here.last() == blocks[k]);
            match blocks[k] {
                BlockView::ToolUse { id, name, input } => {
                    let words = told_call(name, input);
                    let a = "[Tool call: "@;
                    let b = "("@;
                    let c = ")]"@;
                    let arguments = rendered_json(input);
                    lemma_between(a, name, b + arguments + c);
                    assert(words =~= a + name + (b + arguments + c));
                    lemma_between(a + name + b, arguments, c);
                    let item = plain_message("assistant"@, JsonView::Text(words));
                    assert(blocks_input(here, false)[at] == item);
                    assert(rest[at] == item);
                    assert(items[n + at] == rest[at]);
                },
                BlockView::ToolResult { tool_use_id, content, is_error } => {
                    let words = told_result(tool_use_id, content);
                    let a = "[Tool result for "@;
                    let b = ": "@;
                    let c = "]"@;
                    lemma_between(a, tool_use_id, b + content + c);
                    assert(words =~= a + tool_use_id + (b + content + c));
                    lemma_between(a + tool_use_id + b, content, c);
                    let item = plain_message("user"@, JsonView::Text(words));
                    assert(blocks_input(here, false)[at] == item);
                    assert(rest[at] == item);
                    assert(items[n + at] == rest[at]);
                },
                _ => {},
            }
        }
    }
}

/// The settings and the tools of a Responses request can be read back from it; it carries the
/// input, and names the response that it goes on from, where it goes on from one.
pub proof fn law_responses_body(
    model: Seq<char>,
    reasoning_effort: Option<Seq<char>>,
    cursor: CursorView,
    messages: Seq<MessageView>,
    system: Seq<char>,
    tools: Seq<ToolDefinitionView>,
    max_tokens: u32,
)
    ensures
        ({
            let body = response_body(
                model,
                reasoning_effort,
                cursor,
                messages,
                system,
                tools,
                max_tokens,
            );
            &&& text_at(body, "model"@) == Some(model)
            &&& text_at(body, "instructions"@) == Some(system)
            &&& body.at("max_output_tokens"@) == JsonView::Number(
                unsigned_number(max_tokens as u64),
            )
            &&& body.at("stream"@) == JsonView::Bool(true)
            &&& body.at("store"@) == JsonView::Bool(true)
            &&& body.at("input"@).items() == Some(cursor.input(messages))
            &&& match cursor.previous(messages) {
                Some(id) => text_at(body, "previous_response_id"@) == Some(id),
                None => body.get("previous_response_id"@) is None,
            }
            &&& match reasoning_effort {
                Some(effort) => text_at(body.at("reasoning"@), "effort"@) == Some(effort),
                None => body.get("reasoning"@) is None,
            }
            &&& tools.len() == 0 ==> body.get("tools"@) is None
            &&& tools.len() > 0 ==> {
                &&& body.at("tools"@).items() matches Some(items)
                &&& offers_tools(items, tools, "parameters"@)
                &&& forall|i: int|
                    0 <= i < items.len() ==> {
                        &&& text_at(#[trigger] items[i], "type"@) == Some("function"@)
                        &&& items[i].at("strict"@) == JsonView::Bool(false)
                    }
            }
        }),
{
    lemma_field_names();
    let items = response_tools(tools);
    assert(offers_tools(items, tools, "parameters"@));
    let body = response_body(
        model,
        reasoning_effort,
        cursor,
        messages,
        system,
        tools,
        max_tokens,
    );
    if tools.len() > 0 {
        assert(body.get("tools"@) == Some(JsonView::Array(items)));
    }
}

/// A request goes on from the last response only where there is one and the history has grown
/// since; it then carries the messages behind those that were sent, and else all of them.
pub proof fn law_responses_go_on(cursor: CursorView, messages: Seq<MessageView>)
    ensures
        ({
            let sent = cursor.sent_message_count;
            let goes_on = cursor.response_id is Some && sent < messages.len();
            &&& cursor.previous(messages) is Some <==> goes_on
            &&& goes_on ==> cursor.previous(messages) == cursor.response_id
            &&& goes_on ==> cursor.input(messages) == conversation_input(
                messages.skip(sent as int),
                true,
            )
            &&& !goes_on ==> cursor.input(messages) == conversation_input(messages, false)
        }),
{
}

/// Without an earlier response the whole conversation is sent, whatever it is.
pub proof fn law_first_request(messages: Seq<MessageView>)
    ensures
        CursorView::none().previous(messages) is None,
        CursorView::none().input(messages) == conversation_input(messages, false),
{
}

} // verus!
