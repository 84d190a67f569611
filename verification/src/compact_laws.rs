//! What the size of a conversation is made of, and what compaction keeps of it.

use vstd::prelude::*;
use crate::api::stream::EventView;
use crate::api::types::{blocks_of, BlockView, ContentView, MessageView};
use crate::compact::{
    counted, counted_in_blocks, counted_in_message, counted_texts, kept_output,
    lemma_counted_concat, law_snip_point, lemma_tokens_concat, measurable, snip_point, snipped,
    strategy, token_count, tokenizable, tokens_of, total_tokens, window_of, CompactStrategy,
};
use crate::content::{lemma_together_push, put_together};
use crate::json::rendered_json;
use crate::query::{
    frees_enough, snip_candidate, snip_report, summarized, summary_report, summary_step,
    summary_with,
};
use crate::text::{byte_len, cut, decimal, occurs, tail_cut};
use crate::text_laws::{law_cut, law_tail_cut, lemma_between};
use crate::turn_laws::texts_heard;

verus! {

/// The size of a conversation is the sum of the sizes of its parts, wherever it is divided,
/// and an empty one has none.
pub proof fn law_sizes_add_up(a: Seq<MessageView>, b: Seq<MessageView>)
    ensures
        total_tokens(a + b) == total_tokens(a) + total_tokens(b),
        a.len() == 0 ==> total_tokens(a) == 0,
{
    lemma_counted_concat(a, b);
    lemma_tokens_concat(counted(a), counted(b));
}

proof fn lemma_one_message(message: MessageView)
    ensures
        total_tokens(seq![message]) == tokens_of(counted_in_message(message)),
        counted(seq![message]) == counted_in_message(message),
{
    assert(seq![message].drop_last() =~= Seq::empty());
    reveal_with_fuel(counted, 2);
    assert(counted(seq![message]) =~= counted_in_message(message));
}

proof fn lemma_one_text(text: Seq<char>)
    ensures
        tokens_of(seq![text]) == token_count(text),
{
    assert(seq![text].drop_last() =~= Seq::empty());
    reveal_with_fuel(tokens_of, 2);
}

/// A message of plain text counts for the tokens of its text.
pub proof fn law_text_message_counts(role: Seq<char>, text: Seq<char>)
    ensures
        total_tokens(seq![MessageView { role, content: ContentView::Text(text) }]) == token_count(
            text,
        ),
{
    lemma_one_message(MessageView { role, content: ContentView::Text(text) });
    lemma_one_text(text);
}

/// A block that is added to a message adds exactly its own tokens, whatever the message holds
/// already: a text those of the text, a tool result those of its content, a tool call those of
/// its name and of its arguments as they are written out. Images and reasoning add none, and
/// a message without blocks has none.
pub proof fn law_block_counts(role: Seq<char>, blocks: Seq<BlockView>, block: BlockView)
    ensures
        ({
            let before = total_tokens(seq![blocks_of(role, blocks)]);
            let after = total_tokens(seq![blocks_of(role, blocks.push(block))]);
            &&& blocks.len() == 0 ==> before == 0
            &&& block matches BlockView::Text { text } ==> after == before + token_count(text)
            &&& block matches BlockView::ToolResult { tool_use_id, content, is_error } ==> after
                == before + token_count(content)
            &&& block matches BlockView::ToolUse { id, name, input } ==> after == before
                + token_count(name) + token_count(rendered_json(input))
            &&& block is Image || block is Reasoning ==> after == before
        }),
{
    let more = blocks.push(block);
    lemma_one_message(blocks_of(role, blocks));
    lemma_one_message(blocks_of(role, more));
    assert(more.drop_last() =~= blocks);
    lemma_tokens_concat(counted_in_blocks(blocks), counted_texts(block));
    match block {
        BlockView::Text { text } => {
            lemma_one_text(text);
        },
        BlockView::ToolResult { tool_use_id, content, is_error } => {
            lemma_one_text(content);
        },
        BlockView::ToolUse { id, name, input } => {
            let arguments = rendered_json(input);
            assert(seq![name, arguments] =~= seq![name] + seq![arguments]);
            lemma_tokens_concat(seq![name], seq![arguments]);
            lemma_one_text(name);
            lemma_one_text(arguments);
        },
        _ => {},
    }
}

proof fn lemma_block_counted(blocks: Seq<BlockView>, j: int, text: Seq<char>)
    requires
        0 <= j < blocks.len(),
        counted_texts(blocks[j]).contains(text),
    ensures
        counted_in_blocks(blocks).contains(text),
    decreases blocks.len(),
{
    let init = blocks.drop_last();
    let before = counted_in_blocks(init);
    let all = counted_in_blocks(blocks);
    if j < init.len() {
        assert(init[j] == blocks[j]);
        lemma_block_counted(init, j, text);
        let k = choose|k: int| 0 <= k < before.len() && before[k] == text;
        assert(all[k] == text);
    } else {
        let last = counted_texts(blocks.last());
        let k = choose|k: int| 0 <= k < last.len() && last[k] == text;
        assert(all[before.len() + k] == text);
    }
}

proof fn lemma_text_counted(texts: Seq<Seq<char>>, k: int)
    requires
        0 <= k < texts.len(),
    ensures
        tokens_of(texts) >= token_count(texts[k]),
    decreases texts.len(),
{
    if k < texts.len() - 1 {
        assert(texts.drop_last()[k] == texts[k]);
        lemma_text_counted(texts.drop_last(), k);
    }
}

/// Whether a text stands in a message that is sent to the provider: as its content, as a text
/// block, as a tool result, or as the name or the arguments of a tool call.
pub open spec fn is_sent(message: MessageView, text: Seq<char>) -> bool {
    match message.content {
        ContentView::Text(t) => t == text,
        ContentView::Blocks(blocks) => exists|j: int|
            0 <= j < blocks.len() && (match #[trigger] blocks[j] {
                BlockView::Text { text: t } => t == text,
                BlockView::ToolResult { tool_use_id, content, is_error } => content == text,
                BlockView::ToolUse { id, name, input } => name == text || rendered_json(input)
                    == text,
                _ => false,
            }),
    }
}

/// Every text of a conversation that is sent to the provider is counted: the size of the
/// conversation is at least that of each of them, and where the size can be measured, each
/// of them can.
pub proof fn law_every_text_counts(messages: Seq<MessageView>, i: int, text: Seq<char>)
    requires
        0 <= i < messages.len(),
        is_sent(messages[i], text),
    ensures
        total_tokens(messages) >= token_count(text),
        measurable(messages) ==> tokenizable(text),
{
    let message = messages[i];
    let own = counted_in_message(message);
    match message.content {
        ContentView::Text(t) => {
            assert(own[0] == text);
        },
        ContentView::Blocks(blocks) => {
            let j = choose|j: int|
                0 <= j < blocks.len() && (match #[trigger] blocks[j] {
                    BlockView::Text { text: t } => t == text,
                    BlockView::ToolResult { tool_use_id, content, is_error } => content == text,
                    BlockView::ToolUse { id, name, input } => name == text || rendered_json(input)
                        == text,
                    _ => false,
                });
            let texts = counted_texts(blocks[j]);
            match blocks[j] {
                BlockView::ToolUse { id, name, input } => {
                    assert(texts[0] == name && texts[1] == rendered_json(input));
                },
                _ => {
                    assert(texts[0] == text);
                },
            }
            assert(texts.contains(text));
            lemma_block_counted(blocks, j, text);
        },
    }
    assert(own.contains(text));
    let k = choose|k: int| 0 <= k < own.len() && own[k] == text;
    let before = messages.take(i);
    let behind = messages.skip(i + 1);
    assert(messages =~= before + (seq![message] + behind));
    lemma_counted_concat(before, seq![message] + behind);
    lemma_counted_concat(seq![message], behind);
    lemma_one_message(message);
    let at = counted(before).len() + k;
    assert(counted(messages)[at] == text);
    lemma_text_counted(counted(messages), at);
}

/// A conversation is summarized when it fills more than four fifths of the context window, and
/// snipped when it fills more than three fifths but no more than four; else it is left
/// alone.
pub proof fn law_thresholds(tokens: nat, context_window: nat)
    ensures
        strategy(tokens, context_window) == CompactStrategy::Summarize <==> 5 * tokens > 4
            * context_window,
        strategy(tokens, context_window) == CompactStrategy::Snip <==> 5 * tokens > 3
            * context_window && 5 * tokens <= 4 * context_window,
        strategy(tokens, context_window) == CompactStrategy::Unneeded <==> 5 * tokens <= 3
            * context_window,
{
}

/// Snipping is enough where the conversation gets shorter and has fewer tokens than seven
/// tenths of the context window, rounded down.
pub proof fn law_snipping_is_enough(old_tokens: nat, new_tokens: nat, context_window: nat)
    ensures
        frees_enough(old_tokens, new_tokens, context_window) <==> new_tokens < old_tokens && 10 * (
        new_tokens + 1) <= 7 * context_window,
{
}

/// A conversation that is snipped begins with a message of the user that tells how many
/// messages it stands for and how many tokens they had; each message behind it stays as it
/// was, to the last.
pub proof fn law_snip_tells(messages: Seq<MessageView>, at: int)
    requires
        0 < at <= messages.len(),
    ensures
        ({
            let out = snipped(messages, at);
            &&& out.len() == messages.len() - at + 1
            &&& out[0].role == "user"@
            &&& out[0].content matches ContentView::Text(text)
            &&& occurs(decimal(at as nat), text)
            &&& occurs(decimal(total_tokens(messages.take(at))), text)
            &&& forall|i: int| at <= i < messages.len() ==> #[trigger] messages[i] == out[i - at + 1]
        }),
{
    let tokens = total_tokens(messages.take(at));
    let out = snipped(messages, at);
    let one = "["@;
    let count = decimal(at as nat);
    let two = " earlier messages snipped (~"@;
    let size = decimal(tokens);
    let three = " tokens). The conversation continues below.]"@;
    let text = one + count + two + size + three;
    lemma_between(one, count, two + size + three);
    assert(text =~= one + count + (two + size + three));
    lemma_between(one + count + two, size, three);
    assert(text =~= (one + count + two) + size + three);
    assert forall|i: int| at <= i < messages.len() implies #[trigger] messages[i] == out[i - at + 1]
        by {
        assert(messages.skip(at)[i - at] == messages[i]);
    }
}

/// A tool output that is not too long is kept whole. Of a longer one its beginning and its end
/// are kept, and between them it is told how many bytes are left out; the two do not
/// overlap.
pub proof fn law_kept_output(output: Seq<char>)
    ensures
        byte_len(output) <= 30000 ==> kept_output(output) == output,
        byte_len(output) > 30000 ==> {
            let start = cut(output, 20000);
            let end = tail_cut(output, 5000);
            let left_out = byte_len(output) - byte_len(start) - byte_len(end);
            &&& start.is_prefix_of(output)
            &&& end.is_suffix_of(output)
            &&& 19997 <= byte_len(start) <= 20000
            &&& 4997 <= byte_len(end) <= 5000
            &&& left_out >= 5000
            &&& start.is_prefix_of(kept_output(output))
            &&& end.is_suffix_of(kept_output(output))
            &&& kept_output(output).len() > start.len() + end.len()
            &&& occurs(
                decimal(left_out as nat),
                kept_output(output).subrange(
                    start.len() as int,
                    kept_output(output).len() - end.len(),
                ),
            )
        },
{
    if byte_len(output) > 30000 {
        let start = cut(output, 20000);
        let end = tail_cut(output, 5000);
        law_cut(output, 20000);
        law_tail_cut(output, 5000);
        lemma_close_start(output);
        lemma_close_end(output);
        let left_out = (byte_len(output) - byte_len(start) - byte_len(end)) as nat;
        let a = "\n\n... ("@;
        let n = decimal(left_out);
        let b = " characters truncated) ...\n\n"@;
        let kept = kept_output(output);
        assert(kept == start + a + n + b + end);
        assert(kept.subrange(start.len() as int, kept.len() - end.len()) =~= a + n + b);
        lemma_between(a, n, b);
        assert(n.len() > 0);
        assert(kept.subrange(kept.len() - end.len(), kept.len() as int) =~= end);
        assert(kept.take(start.len() as int) =~= start);
    }
}

proof fn lemma_char_len(c: char)
    ensures
        1 <= byte_len(seq![c]) <= 4,
{
    vstd::utf8::encode_utf8_first_scalar(seq![c]);
    assert(seq![c].drop_first() =~= Seq::empty());
    reveal_with_fuel(vstd::utf8::encode_utf8, 2);
}

proof fn lemma_close_start(output: Seq<char>)
    requires
        byte_len(output) > 30000,
    ensures
        byte_len(cut(output, 20000)) >= 19997,
{
    let start = cut(output, 20000);
    law_cut(output, 20000);
    let k = start.len() as int;
    if k == output.len() {
        assert(start =~= output);
    } else {
        assert(output.take(k + 1) =~= start + seq![output[k]]);
        crate::text::lemma_encode_concat(start, seq![output[k]]);
        lemma_char_len(output[k]);
    }
}

proof fn lemma_close_end(output: Seq<char>)
    requires
        byte_len(output) > 30000,
    ensures
        byte_len(tail_cut(output, 5000)) >= 4997,
{
    let end = tail_cut(output, 5000);
    law_tail_cut(output, 5000);
    let k = output.len() - end.len();
    if k == 0 {
        assert(end =~= output);
    } else {
        assert(output.skip(k - 1) =~= seq![output[k - 1]] + end);
        crate::text::lemma_encode_concat(seq![output[k - 1]], end);
        lemma_char_len(output[k - 1]);
    }
}

/// The summary that is collected from events in turn, after what was collected before.
pub open spec fn summary_of(before: Seq<char>, events: Seq<EventView>) -> Seq<char>
    decreases events.len(),
{
    if events.len() == 0 {
        before
    } else {
        summary_with(summary_of(before, events.drop_last()), Some(events.last()))
    }
}

/// A summary is the text of its response: all texts that came, put together in order, and
/// nothing else. It is complete when the response says so; it fails where the response
/// fails or breaks off, and the failure tells why.
pub proof fn law_summary_collected(before: Seq<char>, events: Seq<EventView>, event: EventView)
    ensures
        summary_of(before, events) == before + put_together(texts_heard(events)),
        summary_step(Some(event)) is Complete <==> event is Done,
        summary_step(Some(event)) is Fail <==> event is Error,
        event matches EventView::Error(failure) ==> {
            &&& summary_step(Some(event))->Fail_0.kind == failure.kind
            &&& failure.message.is_suffix_of(summary_step(Some(event))->Fail_0.message)
            &&& "Compact error: "@.is_prefix_of(summary_step(Some(event))->Fail_0.message)
        },
        summary_step(None) is Fail,
        "Compact error: "@.is_prefix_of(summary_step(None)->Fail_0.message),
        summary_with(before, None) == before,
    decreases events.len(),
{
    if events.len() > 0 {
        law_summary_collected(before, events.drop_last(), event);
        match events.last() {
            EventView::Text(t) => {
                lemma_together_push(texts_heard(events.drop_last()), t);
                assert(summary_of(before, events) =~= before + put_together(texts_heard(events)));
            },
            _ => {},
        }
    } else {
        assert(before + put_together(texts_heard(events)) =~= before);
    }
    reveal_strlit("Compact error: ");
    reveal_strlit("Compact error: API stream ended without completion");
    assert("Compact error: API stream ended without completion"@.subrange(0, 15)
        =~= "Compact error: "@);
    if let EventView::Error(failure) = event {
        let message = "Compact error: "@ + failure.message;
        assert(message.subrange(0, "Compact error: "@.len() as int) =~= "Compact error: "@);
        assert(message.subrange(message.len() - failure.message.len(), message.len() as int)
            =~= failure.message);
    }
}

/// A conversation that was summarized is a message of the user and behind it one of the
/// assistant that says the summary, whole.
pub proof fn law_summary_kept(summary: Seq<char>)
    ensures
        summarized(summary).len() == 2,
        summarized(summary)[0].role == "user"@,
        summarized(summary)[0].content is Text,
        summarized(summary)[1].role == "assistant"@,
        summarized(summary)[1].content == ContentView::Text(summary),
{
}

/// Snipping for a compaction leaves the ten most recent messages alone, and makes a
/// conversation no longer; one of twelve messages or fewer is not snipped.
pub proof fn law_recent_messages_stay(messages: Seq<MessageView>)
    ensures
        messages.len() <= 12 ==> snip_candidate(messages) is None,
        snip_candidate(messages) matches Some(out) ==> {
            &&& 10 < out.len() <= messages.len()
            &&& out.skip(out.len() - 10) == messages.skip(messages.len() - 10)
        },
{
    law_snip_point(messages, 10);
    if let Some(at) = snip_point(messages, 10) {
        let out = snipped(messages, at);
        assert(out.skip(out.len() - 10) =~= messages.skip(messages.len() - 10));
    }
}

/// The reports of a compaction tell how many messages went into it, and how many tokens were
/// freed or what the summary says.
pub proof fn law_compaction_reported(count: nat, freed: nat, summary: Seq<char>)
    ensures
        occurs(decimal(count), snip_report(count, freed)),
        occurs(decimal(freed), snip_report(count, freed)),
        occurs(decimal(count), summary_report(count, summary)),
        occurs(summary, summary_report(count, summary)),
{
    let a = "Snipped "@;
    let b = " old messages (~"@;
    let c = " tokens freed)"@;
    let n = decimal(count);
    let m = decimal(freed);
    lemma_between(a, n, b + m + c);
    assert(snip_report(count, freed) =~= a + n + (b + m + c));
    lemma_between(a + n + b, m, c);
    let d = "Compacted "@;
    let e = " messages into summary.\n\n\u{1b}[2m"@;
    let f = "\u{1b}[0m"@;
    lemma_between(d, n, e + summary + f);
    assert(summary_report(count, summary) =~= d + n + (e + summary + f));
    lemma_between(d + n + e, summary, f);
}

/// The context window of a model goes by the family that its name holds, wherever it stands in
/// the name; a model of no known family has one of 128000 tokens.
pub proof fn law_context_windows(before: Seq<char>, family: Seq<char>, behind: Seq<char>)
    requires
        family == "opus"@ || family == "sonnet"@ || family == "haiku"@,
    ensures
        window_of(before + family + behind) == 200000,
        forall|model: Seq<char>|
            !occurs("opus"@, model) && !occurs("sonnet"@, model) && !occurs("haiku"@, model)
                ==> #[trigger] window_of(model) == if occurs("gpt-3.5"@, model) && !occurs(
                "gpt-4"@,
                model,
            ) && !occurs("gpt-4o"@, model) {
                16000usize
            } else {
                128000usize
            },
{
    lemma_between(before, family, behind);
}

} // verus!
