//! What the blocks of a message hold, read one sort of block at a time.

use vstd::prelude::*;
use crate::api::types::{BlockView, ImageView};
use crate::json::JsonView;
use crate::pairing::{result_ids, use_ids};
use crate::query::ToolCallView;

verus! {

/// A tool result: the call that it answers, what it says, and its error mark.
pub struct AnswerView {
    pub id: Seq<char>,
    pub content: Seq<char>,
    pub is_error: Option<bool>,
}

/// A piece of reasoning.
pub struct ThoughtView {
    pub text: Option<Seq<char>>,
    pub details: Seq<JsonView>,
}

/// Texts put together.
pub open spec fn put_together(texts: Seq<Seq<char>>) -> Seq<char>
    decreases texts.len(),
{
    if texts.len() == 0 {
        Seq::empty()
    } else {
        put_together(texts.drop_last()) + texts.last()
    }
}

/// The texts among blocks, in order.
pub open spec fn texts_in(blocks: Seq<BlockView>) -> Seq<Seq<char>>
    decreases blocks.len(),
{
    if blocks.len() == 0 {
        Seq::empty()
    } else {
        let before = texts_in(blocks.drop_last());
        match blocks.last() {
            BlockView::Text { text } => before.push(text),
            _ => before,
        }
    }
}

/// The tool calls among blocks, in order.
pub open spec fn calls_in(blocks: Seq<BlockView>) -> Seq<ToolCallView>
    decreases blocks.len(),
{
    if blocks.len() == 0 {
        Seq::empty()
    } else {
        let before = calls_in(blocks.drop_last());
        match blocks.last() {
            BlockView::ToolUse { id, name, input } => before.push(ToolCallView { id, name, input }),
            _ => before,
        }
    }
}

/// The tool results among blocks, in order.
pub open spec fn answers_in(blocks: Seq<BlockView>) -> Seq<AnswerView>
    decreases blocks.len(),
{
    if blocks.len() == 0 {
        Seq::empty()
    } else {
        let before = answers_in(blocks.drop_last());
        match blocks.last() {
            BlockView::ToolResult { tool_use_id, content, is_error } => before.push(
                AnswerView { id: tool_use_id, content, is_error },
            ),
            _ => before,
        }
    }
}

/// The reasoning among blocks, in order.
pub open spec fn thoughts_in(blocks: Seq<BlockView>) -> Seq<ThoughtView>
    decreases blocks.len(),
{
    if blocks.len() == 0 {
        Seq::empty()
    } else {
        let before = thoughts_in(blocks.drop_last());
        match blocks.last() {
            BlockView::Reasoning { text, details } => before.push(ThoughtView { text, details }),
            _ => before,
        }
    }
}

/// The images among blocks, in order.
pub open spec fn images_in(blocks: Seq<BlockView>) -> Seq<ImageView>
    decreases blocks.len(),
{
    if blocks.len() == 0 {
        Seq::empty()
    } else {
        let before = images_in(blocks.drop_last());
        match blocks.last() {
            BlockView::Image { source } => before.push(source),
            _ => before,
        }
    }
}

/// The ids of the tool calls among blocks, in order.
pub open spec fn ids_called(blocks: Seq<BlockView>) -> Seq<Seq<char>> {
    Seq::new(calls_in(blocks).len(), |i: int| calls_in(blocks)[i].id)
}

/// Whether blocks hold a tool result.
pub open spec fn is_answer(blocks: Seq<BlockView>) -> bool {
    exists|i: int| 0 <= i < blocks.len() && (#[trigger] blocks[i]) is ToolResult
}

/// Whether blocks hold a result for the tool call of that id.
pub open spec fn answers_call(blocks: Seq<BlockView>, id: Seq<char>) -> bool {
    exists|i: int|
        0 <= i < blocks.len() && (#[trigger] blocks[i]) is ToolResult
            && blocks[i]->ToolResult_tool_use_id == id
}

/// The ids that pair up tool uses and tool results are those of the calls and the results.
pub proof fn lemma_ids(blocks: Seq<BlockView>)
    ensures
        use_ids(blocks) == ids_called(blocks),
        result_ids(blocks).len() > 0 <==> is_answer(blocks),
        forall|id: Seq<char>| #[trigger]
            result_ids(blocks).contains(id) <==> answers_call(blocks, id),
    decreases blocks.len(),
{
    if blocks.len() > 0 {
        let init = blocks.drop_last();
        let last = blocks.last();
        lemma_ids(init);
        assert(blocks =~= init.push(last));
        assert(blocks[blocks.len() - 1] == last);
        assert(use_ids(blocks) =~= ids_called(blocks));
        if is_answer(init) {
            let i = choose|i: int| 0 <= i < init.len() && (#[trigger] init[i]) is ToolResult;
            assert(blocks[i] is ToolResult);
        }
        if is_answer(blocks) {
            let i = choose|i: int| 0 <= i < blocks.len() && (#[trigger] blocks[i]) is ToolResult;
            if i < init.len() {
                assert(init[i] is ToolResult);
            }
        }
        assert forall|id: Seq<char>| #[trigger]
            result_ids(blocks).contains(id) <==> answers_call(blocks, id) by {
            assert(result_ids(init).contains(id) <==> answers_call(init, id));
            if answers_call(init, id) {
                let i = choose|i: int|
                    0 <= i < init.len() && (#[trigger] init[i]) is ToolResult
                        && init[i]->ToolResult_tool_use_id == id;
                assert(blocks[i] is ToolResult && blocks[i]->ToolResult_tool_use_id == id);
                let k = choose|k: int|
                    0 <= k < result_ids(init).len() && result_ids(init)[k] == id;
                assert(result_ids(blocks)[k] == id);
            }
            if answers_call(blocks, id) {
                let i = choose|i: int|
                    0 <= i < blocks.len() && (#[trigger] blocks[i]) is ToolResult
                        && blocks[i]->ToolResult_tool_use_id == id;
                if i < init.len() {
                    assert(init[i] is ToolResult && init[i]->ToolResult_tool_use_id == id);
                } else {
                    assert(result_ids(blocks)[result_ids(blocks).len() - 1] == id);
                }
            }
            if result_ids(blocks).contains(id) {
                let k = choose|k: int|
                    0 <= k < result_ids(blocks).len() && result_ids(blocks)[k] == id;
                if k < result_ids(init).len() {
                    assert(result_ids(init)[k] == id);
                }
            }
        }
    } else {
        assert(use_ids(blocks) =~= ids_called(blocks));
    }
}

/// One more text.
pub proof fn lemma_together_push(texts: Seq<Seq<char>>, text: Seq<char>)
    ensures
        put_together(texts.push(text)) == put_together(texts) + text,
{
    assert(texts.push(text).drop_last() =~= texts);
}

/// Texts after texts.
pub proof fn lemma_together_concat(a: Seq<Seq<char>>, b: Seq<Seq<char>>)
    ensures
        put_together(a + b) == put_together(a) + put_together(b),
    decreases b.len(),
{
    if b.len() == 0 {
        assert(a + b =~= a);
        assert(put_together(a) + put_together(b) =~= put_together(a));
    } else {
        lemma_together_concat(a, b.drop_last());
        assert((a + b).drop_last() =~= a + b.drop_last());
        assert(put_together(a + b) =~= put_together(a) + put_together(b));
    }
}

/// One more block.
pub proof fn lemma_in_push(blocks: Seq<BlockView>, block: BlockView)
    ensures
        texts_in(blocks.push(block)) == (match block {
            BlockView::Text { text } => texts_in(blocks).push(text),
            _ => texts_in(blocks),
        }),
        calls_in(blocks.push(block)) == (match block {
            BlockView::ToolUse { id, name, input } => calls_in(blocks).push(
                ToolCallView { id, name, input },
            ),
            _ => calls_in(blocks),
        }),
        answers_in(blocks.push(block)) == (match block {
            BlockView::ToolResult { tool_use_id, content, is_error } => answers_in(blocks).push(
                AnswerView { id: tool_use_id, content, is_error },
            ),
            _ => answers_in(blocks),
        }),
        thoughts_in(blocks.push(block)) == (match block {
            BlockView::Reasoning { text, details } => thoughts_in(blocks).push(
                ThoughtView { text, details },
            ),
            _ => thoughts_in(blocks),
        }),
        images_in(blocks.push(block)) == (match block {
            BlockView::Image { source } => images_in(blocks).push(source),
            _ => images_in(blocks),
        }),
{
    assert(blocks.push(block).drop_last() =~= blocks);
}

/// Blocks after blocks.
pub proof fn lemma_in_concat(a: Seq<BlockView>, b: Seq<BlockView>)
    ensures
        texts_in(a + b) == texts_in(a) + texts_in(b),
        calls_in(a + b) == calls_in(a) + calls_in(b),
        answers_in(a + b) == answers_in(a) + answers_in(b),
        thoughts_in(a + b) == thoughts_in(a) + thoughts_in(b),
        images_in(a + b) == images_in(a) + images_in(b),
    decreases b.len(),
{
    if b.len() == 0 {
        assert(a + b =~= a);
    } else {
        lemma_in_concat(a, b.drop_last());
        assert((a + b).drop_last() =~= a + b.drop_last());
    }
    assert(texts_in(a + b) =~= texts_in(a) + texts_in(b));
    assert(calls_in(a + b) =~= calls_in(a) + calls_in(b));
    assert(answers_in(a + b) =~= answers_in(a) + answers_in(b));
    assert(thoughts_in(a + b) =~= thoughts_in(a) + thoughts_in(b));
    assert(images_in(a + b) =~= images_in(a) + images_in(b));
}

/// Blocks that are tool calls hold those calls and nothing else.
pub proof fn lemma_only_calls(blocks: Seq<BlockView>)
    requires
        forall|i: int| 0 <= i < blocks.len() ==> (#[trigger] blocks[i]) is ToolUse,
    ensures
        calls_in(blocks).len() == blocks.len(),
        forall|i: int|
            0 <= i < blocks.len() ==> (#[trigger] calls_in(blocks)[i]) == (ToolCallView {
                id: blocks[i]->ToolUse_id,
                name: blocks[i]->ToolUse_name,
                input: blocks[i]->ToolUse_input,
            }),
        texts_in(blocks).len() == 0,
        answers_in(blocks).len() == 0,
        thoughts_in(blocks).len() == 0,
        images_in(blocks).len() == 0,
    decreases blocks.len(),
{
    if blocks.len() > 0 {
        let init = blocks.drop_last();
        assert forall|i: int| 0 <= i < init.len() implies (#[trigger] init[i]) is ToolUse by {
            assert(init[i] == blocks[i]);
        }
        lemma_only_calls(init);
        assert(blocks[blocks.len() - 1] is ToolUse);
    }
}

/// Blocks that are tool results hold those results and nothing else.
pub proof fn lemma_only_answers(blocks: Seq<BlockView>)
    requires
        forall|i: int| 0 <= i < blocks.len() ==> (#[trigger] blocks[i]) is ToolResult,
    ensures
        answers_in(blocks).len() == blocks.len(),
        forall|i: int|
            0 <= i < blocks.len() ==> (#[trigger] answers_in(blocks)[i]) == (AnswerView {
                id: blocks[i]->ToolResult_tool_use_id,
                content: blocks[i]->ToolResult_content,
                is_error: blocks[i]->ToolResult_is_error,
            }),
        texts_in(blocks).len() == 0,
        calls_in(blocks).len() == 0,
        thoughts_in(blocks).len() == 0,
        images_in(blocks).len() == 0,
    decreases blocks.len(),
{
    if blocks.len() > 0 {
        let init = blocks.drop_last();
        assert forall|i: int| 0 <= i < init.len() implies (#[trigger] init[i]) is ToolResult by {
            assert(init[i] == blocks[i]);
        }
        lemma_only_answers(init);
        assert(blocks[blocks.len() - 1] is ToolResult);
    }
}

/// Blocks that are reasoning hold it and nothing else.
pub proof fn lemma_only_thoughts(blocks: Seq<BlockView>)
    requires
        forall|i: int| 0 <= i < blocks.len() ==> (#[trigger] blocks[i]) is Reasoning,
    ensures
        thoughts_in(blocks).len() == blocks.len(),
        texts_in(blocks).len() == 0,
        calls_in(blocks).len() == 0,
        answers_in(blocks).len() == 0,
        images_in(blocks).len() == 0,
    decreases blocks.len(),
{
    if blocks.len() > 0 {
        let init = blocks.drop_last();
        assert forall|i: int| 0 <= i < init.len() implies (#[trigger] init[i]) is Reasoning by {
            assert(init[i] == blocks[i]);
        }
        lemma_only_thoughts(init);
        assert(blocks[blocks.len() - 1] is Reasoning);
    }
}

} // verus!
