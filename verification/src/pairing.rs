//! When a conversation is valid for a provider: every tool use is answered by a tool
//! result in the next message, and every tool result answers a tool use in the message
//! before it.

use vstd::prelude::*;
use crate::api::types::{
    block_views, BlockView, ContentBlock, ContentView, Message, MessageContent, MessageView,
};

verus! {

/// The ids of the tool uses among blocks, in order.
pub open spec fn use_ids(blocks: Seq<BlockView>) -> Seq<Seq<char>>
    decreases blocks.len(),
{
    if blocks.len() == 0 {
        Seq::empty()
    } else {
        match blocks.last() {
            BlockView::ToolUse { id, name, input } => use_ids(blocks.drop_last()).push(id),
            _ => use_ids(blocks.drop_last()),
        }
    }
}

/// The ids that the tool results among blocks answer, in order.
pub open spec fn result_ids(blocks: Seq<BlockView>) -> Seq<Seq<char>>
    decreases blocks.len(),
{
    if blocks.len() == 0 {
        Seq::empty()
    } else {
        match blocks.last() {
            BlockView::ToolResult { tool_use_id, content, is_error } => result_ids(
                blocks.drop_last(),
            ).push(tool_use_id),
            _ => result_ids(blocks.drop_last()),
        }
    }
}

/// The blocks of a message; a message of plain text has none.
pub open spec fn message_blocks(message: MessageView) -> Seq<BlockView> {
    match message.content {
        ContentView::Text(_) => Seq::empty(),
        ContentView::Blocks(blocks) => blocks,
    }
}

/// The ids of the tool uses in a message.
pub open spec fn uses_of(message: MessageView) -> Seq<Seq<char>> {
    use_ids(message_blocks(message))
}

/// The ids that the tool results in a message answer.
pub open spec fn results_of(message: MessageView) -> Seq<Seq<char>> {
    result_ids(message_blocks(message))
}

/// Whether a message carries tool results.
pub open spec fn has_results(message: MessageView) -> bool {
    results_of(message).len() > 0
}

/// The tool uses that are open after a message, given those that were open before it;
/// `None` where the message must not stand there.
pub open spec fn open_after(open_uses: Option<Set<Seq<char>>>, message: MessageView) -> Option<
    Set<Seq<char>>,
> {
    match open_uses {
        None => None,
        Some(pending) => if has_results(message) {
            if uses_of(message).len() == 0 && results_of(message).to_set() == pending {
                Some(Set::empty())
            } else {
                None
            }
        } else if pending == Set::<Seq<char>>::empty() {
            Some(uses_of(message).to_set())
        } else {
            None
        },
    }
}

/// The tool uses that are open after messages.
pub open spec fn open_after_all(
    open_uses: Option<Set<Seq<char>>>,
    messages: Seq<MessageView>,
) -> Option<Set<Seq<char>>>
    decreases messages.len(),
{
    if messages.len() == 0 {
        open_uses
    } else {
        open_after(open_after_all(open_uses, messages.drop_last()), messages.last())
    }
}

/// No tool use is open.
pub open spec fn nothing_open() -> Option<Set<Seq<char>>> {
    Some(Set::empty())
}

/// Whether a conversation is valid: its tool uses and tool results pair up.
pub open spec fn paired(messages: Seq<MessageView>) -> bool {
    open_after_all(nothing_open(), messages) == nothing_open()
}

/// Messages after messages.
pub proof fn lemma_open_after_concat(
    open_uses: Option<Set<Seq<char>>>,
    a: Seq<MessageView>,
    b: Seq<MessageView>,
)
    ensures
        open_after_all(open_uses, a + b) == open_after_all(open_after_all(open_uses, a), b),
    decreases b.len(),
{
    if b.len() == 0 {
        assert(a + b =~= a);
    } else {
        lemma_open_after_concat(open_uses, a, b.drop_last());
        assert((a + b).drop_last() =~= a + b.drop_last());
    }
}

/// One more message.
pub proof fn lemma_open_after_push(messages: Seq<MessageView>, message: MessageView)
    ensures
        open_after_all(nothing_open(), messages.push(message)) == open_after(
            open_after_all(nothing_open(), messages),
            message,
        ),
{
    assert(messages.push(message).drop_last() =~= messages);
}

/// What must not stand somewhere cannot be mended by what follows.
pub proof fn lemma_never_open_again(messages: Seq<MessageView>)
    ensures
        open_after_all(None, messages) is None,
    decreases messages.len(),
{
    if messages.len() > 0 {
        lemma_never_open_again(messages.drop_last());
    }
}

/// The ids of a list of tool uses or results form the set of its members.
pub proof fn lemma_ids_of_uses(blocks: Seq<BlockView>)
    requires
        forall|i: int| 0 <= i < blocks.len() ==> (#[trigger] blocks[i]) is ToolUse,
    ensures
        use_ids(blocks).len() == blocks.len(),
        forall|i: int| 0 <= i < blocks.len() ==> use_ids(blocks)[i] == blocks[i]->ToolUse_id,
        result_ids(blocks).len() == 0,
    decreases blocks.len(),
{
    if blocks.len() > 0 {
        let init = blocks.drop_last();
        assert forall|i: int| 0 <= i < init.len() implies (#[trigger] init[i]) is ToolUse by {
            assert(init[i] == blocks[i]);
        }
        lemma_ids_of_uses(init);
        assert(blocks[blocks.len() - 1] is ToolUse);
    }
}

/// The ids of a list of tool results.
pub proof fn lemma_ids_of_results(blocks: Seq<BlockView>)
    requires
        forall|i: int| 0 <= i < blocks.len() ==> (#[trigger] blocks[i]) is ToolResult,
    ensures
        result_ids(blocks).len() == blocks.len(),
        forall|i: int|
            0 <= i < blocks.len() ==> result_ids(blocks)[i] == blocks[i]->ToolResult_tool_use_id,
        use_ids(blocks).len() == 0,
    decreases blocks.len(),
{
    if blocks.len() > 0 {
        let init = blocks.drop_last();
        assert forall|i: int| 0 <= i < init.len() implies (#[trigger] init[i]) is ToolResult by {
            assert(init[i] == blocks[i]);
        }
        lemma_ids_of_results(init);
        assert(blocks[blocks.len() - 1] is ToolResult);
    }
}

/// The tool uses of blocks in turn.
pub proof fn lemma_use_ids_concat(a: Seq<BlockView>, b: Seq<BlockView>)
    ensures
        use_ids(a + b) == use_ids(a) + use_ids(b),
        result_ids(a + b) == result_ids(a) + result_ids(b),
    decreases b.len(),
{
    if b.len() == 0 {
        assert(a + b =~= a);
        assert(use_ids(a) + use_ids(b) =~= use_ids(a));
        assert(result_ids(a) + result_ids(b) =~= result_ids(a));
    } else {
        lemma_use_ids_concat(a, b.drop_last());
        assert((a + b).drop_last() =~= a + b.drop_last());
        assert(use_ids(a + b) =~= use_ids(a) + use_ids(b));
        assert(result_ids(a + b) =~= result_ids(a) + result_ids(b));
    }
}

/// Whether a message carries tool results.
pub fn contains_tool_result(message: &Message) -> (r: bool)
    ensures
        r == has_results(message@),
{
    match &message.content {
        MessageContent::Text(_) => false,
        MessageContent::Blocks(blocks) => {
            let ghost all = block_views(blocks@);
            let mut i: usize = 0;
            while i < blocks.len()
                invariant
                    i <= blocks@.len(),
                    all == block_views(blocks@),
                    result_ids(all.take(i as int)).len() == 0,
                    message@.content == ContentView::Blocks(all),
                decreases blocks.len() - i,
            {
                assert(all.take(i + 1).drop_last() =~= all.take(i as int));
                match &blocks[i] {
                    ContentBlock::ToolResult { tool_use_id, content, is_error } => {
                        proof {
                            lemma_use_ids_concat(all.take(i + 1), all.skip(i + 1));
                            assert(all.take(i + 1) + all.skip(i + 1) =~= all);
                        }
                        return true;
                    },
                    _ => {},
                }
                i = i + 1;
            }
            assert(all.take(blocks@.len() as int) =~= all);
            false
        },
    }
}

} // verus!
