//! Compaction of a conversation that outgrows the context window.

use vstd::prelude::*;
use vstd::string::StringExecFns;
use vstd::string::StrSliceExecFns;
use crate::api::types::{
    block_views, message_views, user_text, BlockView, ContentBlock, ContentView, Message,
    MessageContent, MessageView,
};
use crate::json::rendered_json;
use crate::pairing::{
    contains_tool_result, has_results, lemma_never_open_again, lemma_open_after_concat,
    nothing_open, open_after, open_after_all, paired, uses_of,
};
use crate::text;
use crate::text::{
    byte_len, cut, decimal, is_space, is_whitespace, lemma_decimal_len, lemma_encode_concat, occurs,
    tail_cut,
};

verus! {

/// The number of bytes that a tool result may have before it is truncated.
pub const TOOL_OUTPUT_MAX_CHARS: usize = 30000;

/// The longest run of characters of one sort that the tokenizer is handed. Its regular
/// expression engine keeps one state for each character of such a run, and at most a
/// million; it takes back at most as many.
pub const MAX_RUN: usize = 999900;

/// The number of tokens that the `cl100k` tokenizer makes of a text.
pub uninterp spec fn token_count(text: Seq<char>) -> nat;

/// The number of whitespace characters that a text ends with.
pub open spec fn trailing_gap(text: Seq<char>) -> nat
    decreases text.len(),
{
    if text.len() > 0 && is_space(text.last()) {
        trailing_gap(text.drop_last()) + 1
    } else {
        0
    }
}

/// Whether a character can be a letter to the tokenizer. Of the characters beyond ASCII
/// each that is no whitespace can.
pub open spec fn may_be_letter(c: char) -> bool {
    'a' <= c <= 'z' || 'A' <= c <= 'Z' || (c > '\u{7f}' && !is_space(c))
}

/// Whether a character can be neither whitespace, letter nor digit to the tokenizer. Of the
/// characters beyond ASCII each that is no whitespace can.
pub open spec fn may_be_symbol(c: char) -> bool {
    !is_space(c) && !('a' <= c <= 'z') && !('A' <= c <= 'Z') && !('0' <= c <= '9')
}

/// Whether a character breaks a line.
pub open spec fn is_break(c: char) -> bool {
    c == '\r' || c == '\n'
}

/// The number of letters that a text can end with.
pub open spec fn trailing_letters(text: Seq<char>) -> nat
    decreases text.len(),
{
    if text.len() > 0 && may_be_letter(text.last()) {
        trailing_letters(text.drop_last()) + 1
    } else {
        0
    }
}

/// The number of symbols that a text can end with, with the line breaks behind them.
pub open spec fn trailing_symbols(text: Seq<char>) -> nat
    decreases text.len(),
{
    if text.len() == 0 {
        0
    } else {
        let before = trailing_symbols(text.drop_last());
        if is_break(text.last()) {
            if before > 0 {
                before + 1
            } else {
                0
            }
        } else if !may_be_symbol(text.last()) {
            0
        } else if text.len() > 1 && is_break(text.drop_last().last()) {
            1
        } else {
            before + 1
        }
    }
}

/// Whether the runs that a text ends with are short enough for the tokenizer.
pub open spec fn ends_shortly(text: Seq<char>) -> bool {
    &&& trailing_gap(text) <= MAX_RUN
    &&& trailing_letters(text) <= MAX_RUN
    &&& trailing_symbols(text) <= MAX_RUN
}

/// Whether a text holds no run of whitespace, of letters or of symbols that is too long for
/// the tokenizer.
pub open spec fn tokenizable(text: Seq<char>) -> bool {
    forall|i: int| 0 <= i <= text.len() ==> ends_shortly(#[trigger] text.take(i))
}

/// Whether a text holds no run of whitespace, of letters or of symbols that is too long for
/// the tokenizer.
pub fn is_tokenizable(text: &str) -> (r: bool)
    ensures
        r == tokenizable(text@),
{
    let a = text::chars_of(text);
    let mut gap: usize = 0;
    let mut letters: usize = 0;
    let mut symbols: usize = 0;
    let mut i: usize = 0;
    assert(text@.take(0) =~= Seq::empty());
    while i < a.len()
        invariant
            i <= a@.len(),
            a@ == text@,
            gap == trailing_gap(text@.take(i as int)),
            letters == trailing_letters(text@.take(i as int)),
            symbols == trailing_symbols(text@.take(i as int)),
            forall|k: int| 0 <= k <= i ==> ends_shortly(#[trigger] text@.take(k)),
        decreases a.len() - i,
    {
        assert(ends_shortly(text@.take(i as int)));
        assert(text@.take(i + 1).drop_last() =~= text@.take(i as int));
        assert(text@.take(i + 1).last() == a@[i as int]);
        assert(i > 0 ==> text@.take(i as int).last() == a@[i - 1]);
        let c = a[i];
        let space = is_whitespace(c);
        let ascii_letter = ('a' <= c && c <= 'z') || ('A' <= c && c <= 'Z');
        let line_break = c == '\r' || c == '\n';
        let after_break = i > 0 && (a[i - 1] == '\r' || a[i - 1] == '\n');
        if space {
            gap = gap + 1;
        } else {
            gap = 0;
        }
        if ascii_letter || (c > '\u{7f}' && !space) {
            letters = letters + 1;
        } else {
            letters = 0;
        }
        if line_break {
            if symbols > 0 {
                symbols = symbols + 1;
            }
        } else if space || ascii_letter || ('0' <= c && c <= '9') {
            symbols = 0;
        } else if after_break {
            symbols = 1;
        } else {
            symbols = symbols + 1;
        }
        i = i + 1;
        if gap > MAX_RUN || letters > MAX_RUN || symbols > MAX_RUN {
            assert(!ends_shortly(text@.take(i as int)));
            return false;
        }
    }
    true
}

/// `tiktoken_rs::CoreBPE::encode`, with the `cl100k_base` encoding and no special tokens
/// allowed, makes tokens of a text; the count of them depends on the text alone. It panics
/// where a part of the text takes its regular expression engine beyond a million states:
/// each character of a run of whitespace, of letters, or of symbols with the line breaks
/// behind them takes one state, and nothing else takes more than a few.
#[verifier::external_body]
pub(crate) fn count_tokens(text: &str) -> (r: usize)
    requires
        tokenizable(text@),
    ensures
        r == token_count(text@),
{
    tiktoken_rs::cl100k_base_singleton().encode(text, &std::collections::HashSet::new()).0.len()
}

/// The texts of a block that are counted.
pub open spec fn counted_texts(block: BlockView) -> Seq<Seq<char>> {
    match block {
        BlockView::Text { text } => seq![text],
        BlockView::ToolUse { id, name, input } => seq![name, rendered_json(input)],
        BlockView::ToolResult { tool_use_id, content, is_error } => seq![content],
        _ => Seq::empty(),
    }
}

/// The texts of blocks that are counted.
pub open spec fn counted_in_blocks(blocks: Seq<BlockView>) -> Seq<Seq<char>>
    decreases blocks.len(),
{
    if blocks.len() == 0 {
        Seq::empty()
    } else {
        counted_in_blocks(blocks.drop_last()) + counted_texts(blocks.last())
    }
}

/// The texts of a message that are counted.
pub open spec fn counted_in_message(message: MessageView) -> Seq<Seq<char>> {
    match message.content {
        ContentView::Text(text) => seq![text],
        ContentView::Blocks(blocks) => counted_in_blocks(blocks),
    }
}

/// The texts of a conversation that are counted.
pub open spec fn counted(messages: Seq<MessageView>) -> Seq<Seq<char>>
    decreases messages.len(),
{
    if messages.len() == 0 {
        Seq::empty()
    } else {
        counted(messages.drop_last()) + counted_in_message(messages.last())
    }
}

/// The number of tokens of texts.
pub open spec fn tokens_of(texts: Seq<Seq<char>>) -> nat
    decreases texts.len(),
{
    if texts.len() == 0 {
        0
    } else {
        tokens_of(texts.drop_last()) + token_count(texts.last())
    }
}

/// The estimated number of tokens of a conversation.
pub open spec fn total_tokens(messages: Seq<MessageView>) -> nat {
    tokens_of(counted(messages))
}

/// Whether all texts can be handed to the tokenizer.
pub open spec fn all_tokenizable(texts: Seq<Seq<char>>) -> bool {
    forall|i: int| 0 <= i < texts.len() ==> tokenizable(#[trigger] texts[i])
}

/// Whether the tokens of a conversation can be counted: the tokenizer takes its texts,
/// and the count fits.
pub open spec fn measurable(messages: Seq<MessageView>) -> bool {
    all_tokenizable(counted(messages)) && total_tokens(messages) <= usize::MAX
}

/// The tokens of texts after texts.
pub proof fn lemma_tokens_concat(a: Seq<Seq<char>>, b: Seq<Seq<char>>)
    ensures
        tokens_of(a + b) == tokens_of(a) + tokens_of(b),
    decreases b.len(),
{
    if b.len() == 0 {
        assert(a + b =~= a);
    } else {
        lemma_tokens_concat(a, b.drop_last());
        assert((a + b).drop_last() =~= a + b.drop_last());
    }
}

/// The counted texts of messages after messages.
pub proof fn lemma_counted_concat(a: Seq<MessageView>, b: Seq<MessageView>)
    ensures
        counted(a + b) == counted(a) + counted(b),
    decreases b.len(),
{
    if b.len() == 0 {
        assert(a + b =~= a);
        assert(counted(a) + counted(b) =~= counted(a));
    } else {
        lemma_counted_concat(a, b.drop_last());
        assert((a + b).drop_last() =~= a + b.drop_last());
        assert(counted(a + b) =~= counted(a) + counted(b));
    }
}

/// The beginning of a conversation that can be counted can be counted.
pub proof fn lemma_measurable_prefix(messages: Seq<MessageView>, n: int)
    requires
        0 <= n <= messages.len(),
        measurable(messages),
    ensures
        measurable(messages.take(n)),
{
    let a = messages.take(n);
    let b = messages.skip(n);
    assert(a + b =~= messages);
    lemma_counted_concat(a, b);
    lemma_tokens_concat(counted(a), counted(b));
    assert forall|i: int| 0 <= i < counted(a).len() implies tokenizable(#[trigger] counted(a)[i]) by {
        assert(counted(messages)[i] == counted(a)[i]);
    }
}

/// Counts one more text; `None` where that is not possible.
fn count_more(total: Option<usize>, text: &str, Ghost(seen): Ghost<Seq<Seq<char>>>) -> (r: Option<
    usize,
>)
    requires
        counts(total, seen),
    ensures
        counts(r, seen.push(text@)),
{
    proof {
        assert(seen.push(text@).drop_last() =~= seen);
        assert(seen.push(text@).last() == text@);
        assert forall|i: int| 0 <= i < seen.len() implies seen.push(text@)[i] == seen[i] by {}
        assert(seen.push(text@)[seen.len() as int] == text@);
        if !(all_tokenizable(seen) && tokens_of(seen) <= usize::MAX) {
            if !all_tokenizable(seen) {
                let k = choose|k: int| 0 <= k < seen.len() && !tokenizable(#[trigger] seen[k]);
                assert(!tokenizable(seen.push(text@)[k]));
            }
        }
    }
    match total {
        Some(sum) => if is_tokenizable(text) {
            assert(all_tokenizable(seen.push(text@)));
            sum.checked_add(count_tokens(text))
        } else {
            None
        },
        None => None,
    }
}

/// Whether a running total stands for the texts seen so far.
pub open spec fn counts(total: Option<usize>, seen: Seq<Seq<char>>) -> bool {
    match total {
        Some(sum) => all_tokenizable(seen) && sum == tokens_of(seen),
        None => !(all_tokenizable(seen) && tokens_of(seen) <= usize::MAX),
    }
}

fn count_block(total: Option<usize>, block: &ContentBlock, Ghost(seen): Ghost<Seq<Seq<char>>>) -> (r:
    Option<usize>)
    requires
        counts(total, seen),
    ensures
        counts(r, seen + counted_texts(block@)),
{
    match block {
        ContentBlock::Text { text } => {
            assert(seen + counted_texts(block@) =~= seen.push(text@));
            count_more(total, text.as_str(), Ghost(seen))
        },
        ContentBlock::ToolUse { id, name, input } => {
            let named = count_more(total, name.as_str(), Ghost(seen));
            let arguments = input.render();
            assert(seen + counted_texts(block@) =~= seen.push(name@).push(arguments@));
            count_more(named, arguments.as_str(), Ghost(seen.push(name@)))
        },
        ContentBlock::ToolResult { tool_use_id, content, is_error } => {
            assert(seen + counted_texts(block@) =~= seen.push(content@));
            count_more(total, content.as_str(), Ghost(seen))
        },
        _ => {
            assert(seen + counted_texts(block@) =~= seen);
            total
        },
    }
}

fn count_message(total: Option<usize>, message: &Message, Ghost(seen): Ghost<Seq<Seq<char>>>) -> (r:
    Option<usize>)
    requires
        counts(total, seen),
    ensures
        counts(r, seen + counted_in_message(message@)),
{
    match &message.content {
        MessageContent::Text(text) => {
            assert(seen + counted_in_message(message@) =~= seen.push(text@));
            count_more(total, text.as_str(), Ghost(seen))
        },
        MessageContent::Blocks(blocks) => {
            let ghost all = block_views(blocks@);
            let mut sum = total;
            let mut i: usize = 0;
            assert(seen + counted_in_blocks(all.take(0)) =~= seen);
            while i < blocks.len()
                invariant
                    i <= blocks@.len(),
                    all == block_views(blocks@),
                    counts(sum, seen + counted_in_blocks(all.take(i as int))),
                decreases blocks.len() - i,
            {
                let ghost so_far = seen + counted_in_blocks(all.take(i as int));
                assert(all.take(i + 1).drop_last() =~= all.take(i as int));
                assert(all.take(i + 1).last() == blocks@[i as int]@);
                assert(so_far + counted_texts(blocks@[i as int]@) =~= seen + counted_in_blocks(
                    all.take(i + 1),
                ));
                sum = count_block(sum, &blocks[i], Ghost(so_far));
                i = i + 1;
            }
            assert(all.take(blocks@.len() as int) =~= all);
            sum
        },
    }
}

fn count_messages(messages: &[Message]) -> (r: Option<usize>)
    ensures
        counts(r, counted(message_views(messages@))),
{
    let ghost all = message_views(messages@);
    let mut sum: Option<usize> = Some(0);
    let mut i: usize = 0;
    while i < messages.len()
        invariant
            i <= messages@.len(),
            all == message_views(messages@),
            counts(sum, counted(all.take(i as int))),
        decreases messages.len() - i,
    {
        assert(all.take(i + 1).drop_last() =~= all.take(i as int));
        assert(all.take(i + 1).last() == messages@[i as int]@);
        sum = count_message(sum, &messages[i], Ghost(counted(all.take(i as int))));
        i = i + 1;
    }
    assert(all.take(messages@.len() as int) =~= all);
    sum
}

/// The estimated number of tokens of a conversation.
pub fn estimate_tokens(messages: &[Message]) -> (r: usize)
    requires
        measurable(message_views(messages@)),
    ensures
        r == total_tokens(message_views(messages@)),
{
    match count_messages(messages) {
        Some(total) => total,
        None => 0,
    }
}

/// Whether the tokens of a conversation can be counted.
pub fn is_measurable(messages: &[Message]) -> (r: bool)
    ensures
        r == measurable(message_views(messages@)),
{
    count_messages(messages).is_some()
}

/// The estimated number of tokens of a conversation, where they can be counted.
pub fn checked_estimate(messages: &[Message]) -> (r: Option<usize>)
    ensures
        r is Some <==> measurable(message_views(messages@)),
        r matches Some(total) ==> total == total_tokens(message_views(messages@)),
{
    if is_measurable(messages) {
        Some(estimate_tokens(messages))
    } else {
        None
    }
}

/// What a long tool output is cut down to: its beginning, its end, and between them how
/// much is left out.
pub open spec fn truncated_output(output: Seq<char>) -> Seq<char> {
    let start = cut(output, 20000);
    let end = tail_cut(output, 5000);
    let left_out = (byte_len(output) - byte_len(start) - byte_len(end)) as nat;
    start + "\n\n... ("@ + decimal(left_out) + " characters truncated) ...\n\n"@ + end
}

/// What is kept of a tool output: all of it, unless it is too long.
pub open spec fn kept_output(output: Seq<char>) -> Seq<char> {
    if byte_len(output) > TOOL_OUTPUT_MAX_CHARS {
        truncated_output(output)
    } else {
        output
    }
}

/// Cuts a tool output down if it is too long; says whether it was. What is kept is not too
/// long, so that cutting it down again changes nothing.
pub fn truncate_tool_output(output: &str) -> (r: (String, bool))
    ensures
        r.1 == (byte_len(output@) > TOOL_OUTPUT_MAX_CHARS),
        r.0@ == kept_output(output@),
        byte_len(r.0@) <= TOOL_OUTPUT_MAX_CHARS,
        kept_output(r.0@) == r.0@,
{
    let n = text::len_bytes(output);
    if n <= TOOL_OUTPUT_MAX_CHARS {
        return (output.to_owned(), false);
    }
    let start = text::truncate_str(output, 20000);
    let end = text::tail_str(output, 5000);
    let left_out: usize = n - text::len_bytes(start) - text::len_bytes(end);
    let number = text::to_decimal(left_out as u64);
    let mut result = start.to_owned();
    result.append("\n\n... (");
    result.append(number.as_str());
    result.append(" characters truncated) ...\n\n");
    result.append(end);
    proof {
        let a = "\n\n... ("@;
        let b = " characters truncated) ...\n\n"@;
        reveal_strlit("\n\n... (");
        reveal_strlit(" characters truncated) ...\n\n");
        assert(vstd::utf8::is_ascii_chars(a));
        assert(vstd::utf8::is_ascii_chars(b));
        vstd::utf8::is_ascii_chars_encode_utf8(a);
        vstd::utf8::is_ascii_chars_encode_utf8(b);
        lemma_encode_concat(start@, a);
        lemma_encode_concat(start@ + a, number@);
        lemma_encode_concat(start@ + a + number@, b);
        lemma_encode_concat(start@ + a + number@ + b, end@);
        reveal_with_fuel(crate::text::power_of_ten, 21);
        lemma_decimal_len(left_out as nat, 20, 100000000000000000000);
    }
    (result, true)
}

/// The last place at or before `k` where a message carries no tool results, or zero.
pub open spec fn safe_cut(messages: Seq<MessageView>, k: int) -> int
    decreases k,
{
    if k <= 0 {
        0
    } else if has_results(messages[k]) {
        safe_cut(messages, k - 1)
    } else {
        k
    }
}

/// The message that stands for messages that were snipped.
pub open spec fn snip_marker(count: nat, tokens: nat) -> MessageView {
    user_text(
        "["@ + decimal(count) + " earlier messages snipped (~"@ + decimal(tokens)
            + " tokens). The conversation continues below.]"@,
    )
}

/// The place where a conversation is cut, if it is.
pub open spec fn snip_point(messages: Seq<MessageView>, keep_recent: int) -> Option<int> {
    if messages.len() <= keep_recent + 2 {
        None
    } else {
        let at = safe_cut(messages, messages.len() - keep_recent);
        if at == 0 {
            None
        } else {
            Some(at)
        }
    }
}

/// A conversation whose first messages are replaced by a marker.
pub open spec fn snipped(messages: Seq<MessageView>, at: int) -> Seq<MessageView> {
    seq![snip_marker(at as nat, total_tokens(messages.take(at)))] + messages.skip(at)
}

/// Collapses old messages into a marker and keeps at least the most recent ones. The
/// kept messages do not begin with tool results, whose tool uses would be cut off.
/// `None` if there is nothing to snip, or no place to cut.
pub fn snip_old_messages(messages: &[Message], keep_recent: usize) -> (r: Option<Vec<Message>>)
    requires
        snip_point(message_views(messages@), keep_recent as int) matches Some(at) ==> measurable(
            message_views(messages@).take(at),
        ),
        messages@.len() > 2 ==> keep_recent > 0,
        keep_recent <= usize::MAX - 2,
    ensures
        r is Some <==> snip_point(message_views(messages@), keep_recent as int) is Some,
        r matches Some(out) ==> message_views(out@) == snipped(
            message_views(messages@),
            snip_point(message_views(messages@), keep_recent as int)->Some_0,
        ),
{
    let ghost all = message_views(messages@);
    if messages.len() <= keep_recent + 2 {
        return None;
    }
    let mut at: usize = messages.len() - keep_recent;
    while at > 0 && contains_tool_result(&messages[at])
        invariant
            at < messages@.len(),
            all == message_views(messages@),
            safe_cut(all, at as int) == safe_cut(all, messages@.len() - keep_recent),
        decreases at,
    {
        assert(all[at as int] == messages@[at as int]@);
        at = at - 1;
    }
    if at > 0 {
        assert(all[at as int] == messages@[at as int]@);
    }
    if at == 0 {
        return None;
    }
    let gone = vstd::slice::slice_subrange(messages, 0, at);
    let kept = vstd::slice::slice_subrange(messages, at, messages.len());
    assert(message_views(gone@) =~= all.take(at as int));
    assert(message_views(kept@) =~= all.skip(at as int));
    let tokens = estimate_tokens(gone);
    let mut marker = "[".to_owned();
    marker.append(text::to_decimal(at as u64).as_str());
    marker.append(" earlier messages snipped (~");
    marker.append(text::to_decimal(tokens as u64).as_str());
    marker.append(" tokens). The conversation continues below.]");
    let mut out: Vec<Message> = Vec::new();
    out.push(Message::user(marker.as_str()));
    let mut rest = crate::api::types::duplicate_messages(kept);
    let ghost rest_views = message_views(rest@);
    out.append(&mut rest);
    assert(message_views(out@) =~= snipped(all, at as int));
    Some(out)
}

proof fn lemma_safe_cut(messages: Seq<MessageView>, k: int)
    ensures
        0 <= safe_cut(messages, k),
        k >= 0 ==> safe_cut(messages, k) <= k,
        safe_cut(messages, k) > 0 ==> !has_results(messages[safe_cut(messages, k)]),
        forall|j: int| safe_cut(messages, k) < j <= k ==> has_results(#[trigger] messages[j]),
    decreases k,
{
    if k > 0 && has_results(messages[k]) {
        lemma_safe_cut(messages, k - 1);
    }
}

/// A conversation is cut at the last place that leaves the most recent messages alone and
/// whose message carries no tool results; it is not cut where there is no such place.
pub proof fn law_snip_point(messages: Seq<MessageView>, keep_recent: int)
    requires
        0 < keep_recent,
    ensures
        match snip_point(messages, keep_recent) {
            Some(at) => {
                &&& messages.len() > keep_recent + 2
                &&& 1 <= at <= messages.len() - keep_recent
                &&& !has_results(messages[at])
                &&& forall|k: int|
                    at < k <= messages.len() - keep_recent ==> has_results(#[trigger] messages[k])
            },
            None => messages.len() <= keep_recent + 2 || forall|k: int|
                1 <= k <= messages.len() - keep_recent ==> has_results(#[trigger] messages[k]),
        },
{
    lemma_safe_cut(messages, messages.len() - keep_recent);
}

/// Snipping keeps a valid conversation valid: no tool result is cut off from its tool
/// use, and at least the most recent messages stay.
pub proof fn law_snip_keeps_pairs(messages: Seq<MessageView>, keep_recent: int)
    requires
        paired(messages),
        keep_recent > 0,
        snip_point(messages, keep_recent) is Some,
    ensures
        ({
            let at = snip_point(messages, keep_recent)->Some_0;
            let out = snipped(messages, at);
            &&& paired(out)
            &&& out.len() > keep_recent
            &&& out.skip(1) == messages.skip(at)
        }),
{
    let at = snip_point(messages, keep_recent)->Some_0;
    lemma_safe_cut(messages, messages.len() - keep_recent);
    let before = messages.take(at);
    let after = messages.skip(at);
    let out = snipped(messages, at);
    let marker = snip_marker(at as nat, total_tokens(before));
    assert(before + after =~= messages);
    lemma_open_after_concat(nothing_open(), before, after);
    let open_uses = open_after_all(nothing_open(), before);
    // The first kept message can only stand where nothing is open.
    assert(after =~= seq![after[0]] + after.drop_first());
    lemma_open_after_concat(open_uses, seq![after[0]], after.drop_first());
    lemma_one(open_uses, after[0]);
    if open_uses != nothing_open() {
        lemma_never_open_again(after.drop_first());
    }
    lemma_open_after_concat(nothing_open(), seq![marker], after);
    lemma_one(nothing_open(), marker);
    assert(uses_of(marker).to_set() =~= Set::<Seq<char>>::empty());
    assert(out.skip(1) =~= after);
}

proof fn lemma_one(open_uses: Option<Set<Seq<char>>>, message: MessageView)
    ensures
        open_after_all(open_uses, seq![message]) == open_after(open_uses, message),
{
    assert(seq![message].drop_last() =~= Seq::empty());
    reveal_with_fuel(open_after_all, 2);
}

/// What should be done about the size of a conversation.
#[derive(Debug, Clone, Copy, PartialEq, Eq, Structural)]
pub enum CompactStrategy {
    /// No compaction needed.
    Unneeded,
    /// Snip old messages.
    Snip,
    /// Summarize the conversation.
    Summarize,
}

/// What should be done about a conversation of so many tokens.
pub open spec fn strategy(tokens: nat, context_window: nat) -> CompactStrategy {
    if tokens > context_window * 80 / 100 {
        CompactStrategy::Summarize
    } else if tokens > context_window * 60 / 100 {
        CompactStrategy::Snip
    } else {
        CompactStrategy::Unneeded
    }
}

/// What should be done about a conversation of so many tokens: over 80% of the context
/// window it is summarized, over 60% it is snipped.
pub fn strategy_for(tokens: usize, context_window: usize) -> (r: CompactStrategy)
    ensures
        r == strategy(tokens as nat, context_window as nat),
{
    let window: u128 = context_window as u128;
    if (tokens as u128) > window * 80 / 100 {
        CompactStrategy::Summarize
    } else if (tokens as u128) > window * 60 / 100 {
        CompactStrategy::Snip
    } else {
        CompactStrategy::Unneeded
    }
}

/// What should be done about the size of a conversation.
pub fn should_compact(messages: &[Message], context_window: usize) -> (r: CompactStrategy)
    requires
        measurable(message_views(messages@)),
    ensures
        r == strategy(total_tokens(message_views(messages@)), context_window as nat),
{
    strategy_for(estimate_tokens(messages), context_window)
}

/// What should be done about the size of a conversation, where its tokens can be counted.
pub fn checked_should_compact(messages: &[Message], context_window: usize) -> (r: Option<
    CompactStrategy,
>)
    ensures
        r is Some <==> measurable(message_views(messages@)),
        r matches Some(s) ==> s == strategy(
            total_tokens(message_views(messages@)),
            context_window as nat,
        ),
{
    if is_measurable(messages) {
        Some(should_compact(messages, context_window))
    } else {
        None
    }
}

/// The context window of a model, by what its name holds.
pub open spec fn window_of(model: Seq<char>) -> usize {
    if occurs("opus"@, model) || occurs("sonnet"@, model) || occurs("haiku"@, model) {
        200000
    } else if occurs("gpt-4o"@, model) || occurs("gpt-4"@, model) {
        128000
    } else if occurs("gpt-3.5"@, model) {
        16000
    } else {
        128000
    }
}

/// The context window of a model, by what its name holds; a conservative size for
/// models that are not known.
pub fn context_window_for_model(model: &str) -> (r: usize)
    ensures
        r == window_of(model@),
{
    if text::contains(model, "opus") {
        200000
    } else if text::contains(model, "sonnet") {
        200000
    } else if text::contains(model, "haiku") {
        200000
    } else if text::contains(model, "gpt-4o") {
        128000
    } else if text::contains(model, "gpt-4") {
        128000
    } else if text::contains(model, "gpt-3.5") {
        16000
    } else {
        128000
    }
}

/// How much a strategy takes away.
pub open spec fn strength(s: CompactStrategy) -> int {
    match s {
        CompactStrategy::Unneeded => 0,
        CompactStrategy::Snip => 1,
        CompactStrategy::Summarize => 2,
    }
}

/// The fuller the context window, the stronger the strategy: more tokens never call for a
/// weaker one, and a conversation that fits in 60% of the window is left alone.
pub proof fn law_fuller_means_stronger(fewer: nat, more: nat, context_window: nat)
    requires
        fewer <= more,
    ensures
        strength(strategy(fewer, context_window)) <= strength(strategy(more, context_window)),
        fewer <= context_window * 60 / 100 ==> strategy(fewer, context_window)
            == CompactStrategy::Unneeded,
{
    assert(context_window * 60 / 100 <= context_window * 80 / 100) by (nonlinear_arith);
}

} // verus!
