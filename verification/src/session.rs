//! Loading a stored session.

use vstd::prelude::*;
use vstd::string::StringExecFns;
use crate::api::types::{
    block_views, blocks_of, message_views, BlockView, ContentBlock, ContentView, Message,
    MessageContent, MessageView,
};
use crate::pairing::{
    contains_tool_result, has_results, lemma_ids_of_results, lemma_open_after_push,
    lemma_use_ids_concat, message_blocks, nothing_open, open_after_all, paired, result_ids,
    results_of, use_ids, uses_of,
};
use crate::db::{load_messages, stored_messages, StoredMessage};
use crate::paths;
use crate::paths::components;
use crate::text;
use crate::text::{pair_views, texts};

verus! {

/// The content of a result that was not saved.
pub const LOST_RESULT: &'static str = "Tool result not saved before the session ended.";

/// The result that stands in for one that was not saved.
pub open spec fn lost_result(id: Seq<char>) -> BlockView {
    BlockView::ToolResult { tool_use_id: id, content: LOST_RESULT@, is_error: Some(true) }
}

/// The results that stand in for those that were not saved.
pub open spec fn lost_results(ids: Seq<Seq<char>>) -> Seq<BlockView> {
    Seq::new(ids.len(), |i: int| lost_result(ids[i]))
}

/// Blocks without the results that answer none of the pending uses.
pub open spec fn without_orphans(blocks: Seq<BlockView>, pending: Seq<Seq<char>>) -> Seq<BlockView>
    decreases blocks.len(),
{
    if blocks.len() == 0 {
        Seq::empty()
    } else {
        let kept = without_orphans(blocks.drop_last(), pending);
        match blocks.last() {
            BlockView::ToolResult { tool_use_id, content, is_error } => if pending.contains(
                tool_use_id,
            ) {
                kept.push(blocks.last())
            } else {
                kept
            },
            _ => kept.push(blocks.last()),
        }
    }
}

/// The pending uses that are not among the answered ones.
pub open spec fn unanswered(pending: Seq<Seq<char>>, answered: Seq<Seq<char>>) -> Seq<Seq<char>>
    decreases pending.len(),
{
    if pending.len() == 0 {
        Seq::empty()
    } else {
        let rest = unanswered(pending.drop_last(), answered);
        if answered.contains(pending.last()) {
            rest
        } else {
            rest.push(pending.last())
        }
    }
}

/// A history under repair: what has been repaired, and the tool uses that wait for
/// their results.
pub struct Repair {
    pub done: Seq<MessageView>,
    pub pending: Seq<Seq<char>>,
}

/// The message that answers pending uses whose results were not saved.
pub open spec fn flushed(r: Repair) -> Seq<MessageView> {
    if r.pending.len() > 0 {
        r.done.push(blocks_of("user"@, lost_results(r.pending)))
    } else {
        r.done
    }
}

/// The blocks of a result message after repair: orphans are dropped, and results that
/// were not saved stand in the same message.
pub open spec fn repaired_results(blocks: Seq<BlockView>, pending: Seq<Seq<char>>) -> Seq<
    BlockView,
> {
    let kept = without_orphans(blocks, pending);
    kept + lost_results(unanswered(pending, result_ids(kept)))
}

/// The repair after one more message.
pub open spec fn repair_message(r: Repair, message: MessageView) -> Repair {
    if has_results(message) {
        let blocks = repaired_results(message_blocks(message), r.pending);
        Repair {
            done: if blocks.len() > 0 {
                r.done.push(blocks_of(message.role, blocks))
            } else {
                r.done
            },
            pending: Seq::empty(),
        }
    } else {
        Repair { done: flushed(r).push(message), pending: uses_of(message) }
    }
}

/// The repair after messages.
pub open spec fn repair_messages(messages: Seq<MessageView>) -> Repair
    decreases messages.len(),
{
    if messages.len() == 0 {
        Repair { done: Seq::empty(), pending: Seq::empty() }
    } else {
        repair_message(repair_messages(messages.drop_last()), messages.last())
    }
}

/// The history after repair.
pub open spec fn repaired(messages: Seq<MessageView>) -> Seq<MessageView> {
    flushed(repair_messages(messages))
}

fn make_lost_results(ids: &Vec<String>) -> (r: Vec<ContentBlock>)
    ensures
        block_views(r@) == lost_results(texts(ids@)),
{
    let mut out: Vec<ContentBlock> = Vec::new();
    let mut i: usize = 0;
    while i < ids.len()
        invariant
            i == out@.len(),
            i <= ids@.len(),
            forall|k: int| 0 <= k < i ==> out@[k]@ == lost_result(ids@[k]@),
        decreases ids.len() - i,
    {
        out.push(
            ContentBlock::ToolResult {
                tool_use_id: ids[i].clone(),
                content: LOST_RESULT.to_owned(),
                is_error: Some(true),
            },
        );
        i = i + 1;
    }
    assert(block_views(out@) =~= lost_results(texts(ids@)));
    out
}

fn list_has(list: &Vec<String>, item: &str) -> (r: bool)
    ensures
        r == texts(list@).contains(item@),
{
    let mut i: usize = 0;
    while i < list.len()
        invariant
            i <= list@.len(),
            forall|k: int| 0 <= k < i ==> (#[trigger] list@[k])@ != item@,
        decreases list.len() - i,
    {
        if text::same(list[i].as_str(), item) {
            assert(texts(list@)[i as int] == item@);
            return true;
        }
        i = i + 1;
    }
    assert forall|k: int| 0 <= k < list@.len() implies texts(list@)[k] != item@ by {
        assert(list@[k]@ != item@);
    }
    false
}

fn drop_orphans(blocks: &Vec<ContentBlock>, pending: &Vec<String>) -> (r: (
    Vec<ContentBlock>,
    Vec<String>,
))
    ensures
        block_views(r.0@) == without_orphans(block_views(blocks@), texts(pending@)),
        texts(r.1@) == result_ids(block_views(r.0@)),
{
    let ghost all = block_views(blocks@);
    let mut kept: Vec<ContentBlock> = Vec::new();
    let mut answered: Vec<String> = Vec::new();
    assert(block_views(kept@) =~= Seq::empty());
    assert(texts(answered@) =~= Seq::empty());
    let mut i: usize = 0;
    while i < blocks.len()
        invariant
            i <= blocks@.len(),
            all == block_views(blocks@),
            block_views(kept@) == without_orphans(all.take(i as int), texts(pending@)),
            texts(answered@) == result_ids(block_views(kept@)),
        decreases blocks.len() - i,
    {
        assert(all.take(i + 1).drop_last() =~= all.take(i as int));
        assert(all.take(i + 1).last() == blocks@[i as int]@);
        let ghost before = block_views(kept@);
        let ghost ids = texts(answered@);
        match &blocks[i] {
            ContentBlock::ToolResult { tool_use_id, content, is_error } => {
                if list_has(pending, tool_use_id.as_str()) {
                    kept.push(blocks[i].duplicate());
                    answered.push(tool_use_id.clone());
                    assert(block_views(kept@) =~= before.push(blocks@[i as int]@));
                    assert(texts(answered@) =~= ids.push(tool_use_id@));
                    assert(block_views(kept@).drop_last() =~= before);
                }
            },
            _ => {
                kept.push(blocks[i].duplicate());
                assert(block_views(kept@) =~= before.push(blocks@[i as int]@));
                assert(block_views(kept@).drop_last() =~= before);
            },
        }
        i = i + 1;
    }
    assert(all.take(blocks@.len() as int) =~= all);
    (kept, answered)
}

fn drop_answered(pending: &Vec<String>, answered: &Vec<String>) -> (r: Vec<String>)
    ensures
        texts(r@) == unanswered(texts(pending@), texts(answered@)),
{
    let ghost all = texts(pending@);
    let mut out: Vec<String> = Vec::new();
    assert(texts(out@) =~= Seq::empty());
    let mut i: usize = 0;
    while i < pending.len()
        invariant
            i <= pending@.len(),
            all == texts(pending@),
            texts(out@) == unanswered(all.take(i as int), texts(answered@)),
        decreases pending.len() - i,
    {
        assert(all.take(i + 1).drop_last() =~= all.take(i as int));
        assert(all.take(i + 1).last() == pending@[i as int]@);
        if !list_has(answered, pending[i].as_str()) {
            let ghost before = texts(out@);
            out.push(pending[i].clone());
            assert(texts(out@) =~= before.push(pending@[i as int]@));
        }
        i = i + 1;
    }
    assert(all.take(pending@.len() as int) =~= all);
    out
}

fn collect_use_ids(message: &Message) -> (r: Vec<String>)
    ensures
        texts(r@) == uses_of(message@),
{
    let mut out: Vec<String> = Vec::new();
    assert(texts(out@) =~= Seq::empty());
    match &message.content {
        MessageContent::Text(_) => {},
        MessageContent::Blocks(blocks) => {
            let ghost all = block_views(blocks@);
            let mut i: usize = 0;
            while i < blocks.len()
                invariant
                    i <= blocks@.len(),
                    all == block_views(blocks@),
                    texts(out@) == use_ids(all.take(i as int)),
                decreases blocks.len() - i,
            {
                assert(all.take(i + 1).drop_last() =~= all.take(i as int));
                assert(all.take(i + 1).last() == blocks@[i as int]@);
                match &blocks[i] {
                    ContentBlock::ToolUse { id, name, input } => {
                        let ghost before = texts(out@);
                        out.push(id.clone());
                        assert(texts(out@) =~= before.push(id@));
                    },
                    _ => {},
                }
                i = i + 1;
            }
            assert(all.take(blocks@.len() as int) =~= all);
        },
    }
    out
}

fn push_message(out: &mut Vec<Message>, message: Message)
    ensures
        message_views(final(out)@) == message_views(old(out)@).push(message@),
{
    out.push(message);
    assert(message_views(out@) =~= message_views(old(out)@).push(message@));
}

/// Makes a loaded history valid: results that were not saved are made up, results that
/// answer nothing are dropped.
pub fn repair_history(messages: Vec<Message>) -> (r: Vec<Message>)
    ensures
        message_views(r@) == repaired(message_views(messages@)),
{
    let ghost all = message_views(messages@);
    let mut done: Vec<Message> = Vec::new();
    let mut pending: Vec<String> = Vec::new();
    assert(message_views(done@) =~= Seq::empty());
    assert(texts(pending@) =~= Seq::empty());
    let mut i: usize = 0;
    while i < messages.len()
        invariant
            i <= messages@.len(),
            all == message_views(messages@),
            repair_messages(all.take(i as int)) == (Repair {
                done: message_views(done@),
                pending: texts(pending@),
            }),
        decreases messages.len() - i,
    {
        assert(all.take(i + 1).drop_last() =~= all.take(i as int));
        assert(all.take(i + 1).last() == messages@[i as int]@);
        let ghost before = Repair { done: message_views(done@), pending: texts(pending@) };
        if contains_tool_result(&messages[i]) {
            match &messages[i].content {
                MessageContent::Blocks(blocks) => {
                    let (mut kept, answered) = drop_orphans(blocks, &pending);
                    let ghost kept_views = block_views(kept@);
                    let lost = drop_answered(&pending, &answered);
                    let mut made_up = make_lost_results(&lost);
                    let ghost made_up_views = block_views(made_up@);
                    kept.append(&mut made_up);
                    assert(block_views(kept@) =~= kept_views + made_up_views);
                    if kept.len() > 0 {
                        push_message(
                            &mut done,
                            Message {
                                role: messages[i].role.clone(),
                                content: MessageContent::Blocks(kept),
                            },
                        );
                    }
                },
                MessageContent::Text(_) => {},
            }
            pending = Vec::new();
            assert(texts(pending@) =~= Seq::empty());
        } else {
            if pending.len() > 0 {
                push_message(&mut done, Message::tool_results(make_lost_results(&pending)));
            }
            pending = collect_use_ids(&messages[i]);
            push_message(&mut done, messages[i].duplicate());
        }
        i = i + 1;
    }
    assert(all.take(messages@.len() as int) =~= all);
    if pending.len() > 0 {
        push_message(&mut done, Message::tool_results(make_lost_results(&pending)));
    }
    done
}


proof fn lemma_without_orphans(blocks: Seq<BlockView>, pending: Seq<Seq<char>>)
    ensures
        use_ids(without_orphans(blocks, pending)) == use_ids(blocks),
        forall|id: Seq<char>|
            result_ids(without_orphans(blocks, pending)).contains(id) ==> pending.contains(id),
    decreases blocks.len(),
{
    if blocks.len() > 0 {
        let init = blocks.drop_last();
        lemma_without_orphans(init, pending);
        let before = without_orphans(init, pending);
        let after = without_orphans(blocks, pending);
        if after.len() > before.len() {
            assert(after.drop_last() =~= before);
            assert(after.last() == blocks.last());
        }
        assert forall|id: Seq<char>| result_ids(after).contains(id) implies pending.contains(
            id,
        ) by {
            let k = choose|k: int| 0 <= k < result_ids(after).len() && result_ids(after)[k] == id;
            if k < result_ids(before).len() {
                assert(result_ids(before)[k] == id);
                assert(result_ids(before).contains(id));
            }
        }
    }
}

proof fn lemma_without_orphans_same(blocks: Seq<BlockView>, pending: Seq<Seq<char>>)
    requires
        forall|id: Seq<char>| result_ids(blocks).contains(id) ==> pending.contains(id),
    ensures
        without_orphans(blocks, pending) == blocks,
    decreases blocks.len(),
{
    if blocks.len() > 0 {
        let init = blocks.drop_last();
        assert forall|id: Seq<char>| result_ids(init).contains(id) implies pending.contains(id) by {
            let k = choose|k: int| 0 <= k < result_ids(init).len() && result_ids(init)[k] == id;
            assert(result_ids(blocks)[k] == id);
            assert(result_ids(blocks).contains(id));
        }
        lemma_without_orphans_same(init, pending);
        match blocks.last() {
            BlockView::ToolResult { tool_use_id, content, is_error } => {
                let ids = result_ids(blocks);
                assert(ids[ids.len() - 1] == tool_use_id);
                assert(ids.contains(tool_use_id));
            },
            _ => {},
        }
        assert(init.push(blocks.last()) =~= blocks);
    } else {
        assert(blocks =~= Seq::empty());
    }
}

proof fn lemma_unanswered(pending: Seq<Seq<char>>, answered: Seq<Seq<char>>)
    ensures
        forall|id: Seq<char>|
            unanswered(pending, answered).contains(id) <==> pending.contains(id)
                && !answered.contains(id),
    decreases pending.len(),
{
    if pending.len() > 0 {
        let init = pending.drop_last();
        lemma_unanswered(init, answered);
        let rest = unanswered(init, answered);
        let all = unanswered(pending, answered);
        assert forall|id: Seq<char>| all.contains(id) <==> pending.contains(id)
            && !answered.contains(id) by {
            assert(pending.contains(id) <==> init.contains(id) || id == pending.last()) by {
                if pending.contains(id) {
                    let k = choose|k: int| 0 <= k < pending.len() && pending[k] == id;
                    if k < init.len() {
                        assert(init[k] == id);
                    }
                }
                if init.contains(id) {
                    let k = choose|k: int| 0 <= k < init.len() && init[k] == id;
                    assert(pending[k] == id);
                }
                assert(pending[pending.len() - 1] == pending.last());
            }
            if answered.contains(pending.last()) {
                assert(all == rest);
            } else {
                assert(all == rest.push(pending.last()));
                assert(all.contains(id) <==> rest.contains(id) || id == pending.last()) by {
                    if all.contains(id) {
                        let k = choose|k: int| 0 <= k < all.len() && all[k] == id;
                        if k < rest.len() {
                            assert(rest[k] == id);
                        }
                    }
                    if rest.contains(id) {
                        let k = choose|k: int| 0 <= k < rest.len() && rest[k] == id;
                        assert(all[k] == id);
                    }
                    assert(all[all.len() - 1] == pending.last());
                }
            }
        }
    }
}

proof fn lemma_lost_results(ids: Seq<Seq<char>>)
    ensures
        result_ids(lost_results(ids)) == ids,
        use_ids(lost_results(ids)).len() == 0,
{
    lemma_ids_of_results(lost_results(ids));
    assert(result_ids(lost_results(ids)) =~= ids);
}

proof fn lemma_set_of_concat(a: Seq<Seq<char>>, b: Seq<Seq<char>>, c: Seq<Seq<char>>)
    requires
        forall|id: Seq<char>| #![auto] c.contains(id) <==> a.contains(id) || b.contains(id),
    ensures
        (a + b).to_set() == c.to_set(),
{
    assert forall|id: Seq<char>| (a + b).to_set().contains(id) <==> c.to_set().contains(id) by {
        if (a + b).contains(id) {
            let k = choose|k: int| 0 <= k < (a + b).len() && (a + b)[k] == id;
            if k < a.len() {
                assert(a[k] == id);
            } else {
                assert(b[k - a.len()] == id);
            }
        }
        if a.contains(id) {
            let k = choose|k: int| 0 <= k < a.len() && a[k] == id;
            assert((a + b)[k] == id);
        }
        if b.contains(id) {
            let k = choose|k: int| 0 <= k < b.len() && b[k] == id;
            assert((a + b)[a.len() + k] == id);
        }
    }
    assert((a + b).to_set() =~= c.to_set());
}

proof fn lemma_empty_set(ids: Seq<Seq<char>>)
    ensures
        ids.to_set() == Set::<Seq<char>>::empty() <==> ids.len() == 0,
{
    if ids.len() == 0 {
        assert(ids.to_set() =~= Set::<Seq<char>>::empty());
    } else {
        assert(ids.contains(ids[0]));
        assert(ids.to_set().contains(ids[0]));
    }
}

proof fn lemma_repaired_results(blocks: Seq<BlockView>, pending: Seq<Seq<char>>)
    ensures
        result_ids(repaired_results(blocks, pending)).to_set() == pending.to_set(),
        use_ids(repaired_results(blocks, pending)) == use_ids(blocks),
{
    let kept = without_orphans(blocks, pending);
    let missing = unanswered(pending, result_ids(kept));
    lemma_without_orphans(blocks, pending);
    lemma_unanswered(pending, result_ids(kept));
    lemma_lost_results(missing);
    lemma_use_ids_concat(kept, lost_results(missing));
    lemma_set_of_concat(result_ids(kept), missing, pending);
    assert(use_ids(kept) + use_ids(lost_results(missing)) =~= use_ids(kept));
}

proof fn lemma_flushed(r: Repair)
    requires
        open_after_all(nothing_open(), r.done) == Some(r.pending.to_set()),
    ensures
        paired(flushed(r)),
{
    lemma_empty_set(r.pending);
    if r.pending.len() > 0 {
        let answer = blocks_of("user"@, lost_results(r.pending));
        lemma_lost_results(r.pending);
        lemma_open_after_push(r.done, answer);
    }
}

/// Whether no message carries tool results and tool uses at once.
pub open spec fn unmixed(messages: Seq<MessageView>) -> bool {
    forall|i: int|
        0 <= i < messages.len() ==> !(has_results(#[trigger] messages[i]) && uses_of(
            messages[i],
        ).len() > 0)
}

proof fn lemma_repair_messages(messages: Seq<MessageView>)
    requires
        unmixed(messages),
    ensures
        ({
            let r = repair_messages(messages);
            open_after_all(nothing_open(), r.done) == Some(r.pending.to_set())
        }),
    decreases messages.len(),
{
    lemma_empty_set(Seq::<Seq<char>>::empty());
    if messages.len() > 0 {
        let init = messages.drop_last();
        let message = messages.last();
        assert(unmixed(init)) by {
            assert forall|i: int| 0 <= i < init.len() implies !(has_results(#[trigger] init[i])
                && uses_of(init[i]).len() > 0) by {
                assert(init[i] == messages[i]);
            }
        }
        lemma_repair_messages(init);
        let r = repair_messages(init);
        assert(message == messages[messages.len() - 1]);
        if has_results(message) {
            let blocks = repaired_results(message_blocks(message), r.pending);
            lemma_repaired_results(message_blocks(message), r.pending);
            lemma_empty_set(r.pending);
            lemma_empty_set(result_ids(blocks));
            lemma_empty_set(use_ids(blocks));
            if blocks.len() > 0 {
                lemma_open_after_push(r.done, blocks_of(message.role, blocks));
            }
        } else {
            lemma_flushed(r);
            lemma_open_after_push(flushed(r), message);
        }
    }
}

/// A repaired history is valid: every tool use is answered in the next message, and no
/// tool result answers anything else. It takes that no message carries results and uses
/// at once.
pub proof fn law_repair_is_paired(messages: Seq<MessageView>)
    requires
        unmixed(messages),
    ensures
        paired(repaired(messages)),
{
    lemma_repair_messages(messages);
    lemma_flushed(repair_messages(messages));
}

proof fn lemma_valid_untouched(messages: Seq<MessageView>)
    requires
        open_after_all(nothing_open(), messages) is Some,
    ensures
        repair_messages(messages).done == messages,
        open_after_all(nothing_open(), messages) == Some(
            repair_messages(messages).pending.to_set(),
        ),
    decreases messages.len(),
{
    lemma_empty_set(Seq::<Seq<char>>::empty());
    if messages.len() == 0 {
        assert(messages =~= Seq::empty());
    } else {
        let init = messages.drop_last();
        let message = messages.last();
        lemma_valid_untouched(init);
        let r = repair_messages(init);
        assert(init.push(message) =~= messages);
        if has_results(message) {
            let blocks = message_blocks(message);
            assert(results_of(message).to_set() == r.pending.to_set());
            assert forall|id: Seq<char>| result_ids(blocks).contains(id) implies r.pending.contains(
                id,
            ) by {
                assert(results_of(message).to_set().contains(id));
                assert(r.pending.to_set().contains(id));
            }
            lemma_without_orphans_same(blocks, r.pending);
            lemma_unanswered(r.pending, result_ids(blocks));
            let missing = unanswered(r.pending, result_ids(blocks));
            if missing.len() > 0 {
                let id = missing[0];
                assert(missing.contains(id));
                assert(r.pending.to_set().contains(id));
                assert(results_of(message).to_set().contains(id));
            }
            assert(blocks + lost_results(missing) =~= blocks);
            if blocks.len() == 0 {
                assert(result_ids(blocks).len() == 0);
            }
        } else {
            lemma_empty_set(r.pending);
        }
    }
}

/// A valid history is left as it is.
pub proof fn law_repair_keeps_valid(messages: Seq<MessageView>)
    requires
        paired(messages),
    ensures
        repaired(messages) == messages,
{
    lemma_valid_untouched(messages);
    lemma_empty_set(repair_messages(messages).pending);
}

/// Repairing a history twice does what repairing it once does.
pub proof fn law_repair_once(messages: Seq<MessageView>)
    requires
        unmixed(messages),
    ensures
        repaired(repaired(messages)) == repaired(messages),
{
    law_repair_is_paired(messages);
    law_repair_keeps_valid(repaired(messages));
}

/// Something in a history that is no tool result: the text of a message, or a block.
pub enum SaidView {
    Text(Seq<char>),
    Block(BlockView),
}

/// The blocks that are no tool results, in order.
pub open spec fn said_in_blocks(blocks: Seq<BlockView>) -> Seq<SaidView>
    decreases blocks.len(),
{
    if blocks.len() == 0 {
        Seq::empty()
    } else if blocks.last() is ToolResult {
        said_in_blocks(blocks.drop_last())
    } else {
        said_in_blocks(blocks.drop_last()).push(SaidView::Block(blocks.last()))
    }
}

/// What a message holds besides tool results.
pub open spec fn said_in(message: MessageView) -> Seq<SaidView> {
    match message.content {
        ContentView::Text(text) => seq![SaidView::Text(text)],
        ContentView::Blocks(blocks) => said_in_blocks(blocks),
    }
}

/// What a history holds besides tool results, in order.
pub open spec fn said(messages: Seq<MessageView>) -> Seq<SaidView>
    decreases messages.len(),
{
    if messages.len() == 0 {
        Seq::empty()
    } else {
        said(messages.drop_last()) + said_in(messages.last())
    }
}

proof fn lemma_said_push(messages: Seq<MessageView>, message: MessageView)
    ensures
        said(messages.push(message)) == said(messages) + said_in(message),
{
    assert(messages.push(message).drop_last() =~= messages);
}

proof fn lemma_said_in_results(blocks: Seq<BlockView>, more: Seq<BlockView>)
    requires
        forall|i: int| 0 <= i < more.len() ==> (#[trigger] more[i]) is ToolResult,
    ensures
        said_in_blocks(blocks + more) == said_in_blocks(blocks),
    decreases more.len(),
{
    if more.len() == 0 {
        assert(blocks + more =~= blocks);
    } else {
        let init = more.drop_last();
        assert forall|i: int| 0 <= i < init.len() implies (#[trigger] init[i]) is ToolResult by {
            assert(init[i] == more[i]);
        }
        lemma_said_in_results(blocks, init);
        assert((blocks + more).drop_last() =~= blocks + init);
        assert((blocks + more).last() == more[more.len() - 1]);
    }
}

proof fn lemma_said_without_orphans(blocks: Seq<BlockView>, pending: Seq<Seq<char>>)
    ensures
        said_in_blocks(without_orphans(blocks, pending)) == said_in_blocks(blocks),
    decreases blocks.len(),
{
    if blocks.len() > 0 {
        let init = blocks.drop_last();
        lemma_said_without_orphans(init, pending);
        let kept = without_orphans(init, pending);
        assert(kept.push(blocks.last()).drop_last() =~= kept);
    }
}

proof fn lemma_said_flushed(r: Repair)
    ensures
        said(flushed(r)) == said(r.done),
{
    if r.pending.len() > 0 {
        let answer = lost_results(r.pending);
        lemma_said_push(r.done, blocks_of("user"@, answer));
        lemma_said_in_results(Seq::empty(), answer);
        assert(Seq::<BlockView>::empty() + answer =~= answer);
        assert(said(r.done) + Seq::<SaidView>::empty() =~= said(r.done));
    }
}

proof fn lemma_said_kept(messages: Seq<MessageView>)
    ensures
        said(repair_messages(messages).done) == said(messages),
    decreases messages.len(),
{
    if messages.len() > 0 {
        let init = messages.drop_last();
        let message = messages.last();
        lemma_said_kept(init);
        let r = repair_messages(init);
        if has_results(message) {
            let blocks = message_blocks(message);
            let kept = without_orphans(blocks, r.pending);
            let missing = lost_results(unanswered(r.pending, result_ids(kept)));
            lemma_said_without_orphans(blocks, r.pending);
            lemma_said_in_results(kept, missing);
            if (kept + missing).len() > 0 {
                lemma_said_push(r.done, blocks_of(message.role, kept + missing));
            } else {
                assert(said(r.done) + Seq::<SaidView>::empty() =~= said(r.done));
            }
        } else {
            lemma_said_flushed(r);
            lemma_said_push(flushed(r), message);
        }
    }
}

/// Repair loses and adds nothing but tool results: every text and every other block stays,
/// in order.
pub proof fn law_repair_keeps_what_was_said(messages: Seq<MessageView>)
    ensures
        said(repaired(messages)) == said(messages),
{
    lemma_said_kept(messages);
    lemma_said_flushed(repair_messages(messages));
}

proof fn lemma_nothing_kept(blocks: Seq<BlockView>)
    ensures
        without_orphans(blocks, Seq::empty()).len() == 0 <==> (forall|i: int|
            0 <= i < blocks.len() ==> (#[trigger] blocks[i]) is ToolResult),
    decreases blocks.len(),
{
    if blocks.len() > 0 {
        let init = blocks.drop_last();
        lemma_nothing_kept(init);
        assert(blocks[blocks.len() - 1] == blocks.last());
        assert forall|i: int| 0 <= i < init.len() implies #[trigger] init[i] == blocks[i] by {}
        if forall|i: int| 0 <= i < blocks.len() ==> (#[trigger] blocks[i]) is ToolResult {
            assert forall|i: int| 0 <= i < init.len() implies (#[trigger] init[i]) is ToolResult by {
                assert(blocks[i] is ToolResult);
            }
        } else {
            let k = choose|k: int| 0 <= k < blocks.len() && !((#[trigger] blocks[k]) is ToolResult);
            if k < init.len() {
                assert(!(init[k] is ToolResult));
            }
        }
    }
}

/// A message is dropped only where it holds nothing but tool results and no tool use waits
/// for one; each other message stays, behind those before it.
pub proof fn law_repair_drops_orphans_only(messages: Seq<MessageView>, k: int)
    requires
        0 <= k < messages.len(),
    ensures
        ({
            let before = repair_messages(messages.take(k));
            let after = repair_messages(messages.take(k + 1));
            let blocks = message_blocks(messages[k]);
            let orphans = blocks.len() > 0 && before.pending.len() == 0 && forall|i: int|
                0 <= i < blocks.len() ==> (#[trigger] blocks[i]) is ToolResult;
            &&& before.done.is_prefix_of(after.done)
            &&& after.done.len() == before.done.len() <==> orphans
        }),
{
    let r = repair_messages(messages.take(k));
    let message = messages[k];
    let blocks = message_blocks(message);
    assert(messages.take(k + 1).drop_last() =~= messages.take(k));
    assert(messages.take(k + 1).last() == message);
    lemma_nothing_kept(blocks);
    if forall|i: int| 0 <= i < blocks.len() ==> (#[trigger] blocks[i]) is ToolResult {
        lemma_ids_of_results(blocks);
    }
    if has_results(message) {
        let kept = without_orphans(blocks, r.pending);
        let missing = unanswered(r.pending, result_ids(kept));
        if r.pending.len() == 0 {
            assert(r.pending =~= Seq::empty());
        } else if kept.len() == 0 {
            lemma_unanswered(r.pending, result_ids(kept));
            assert(r.pending.contains(r.pending[0]));
            assert(missing.contains(r.pending[0]));
        }
    }
}

/// What the path of a session in the database begins with.
pub const SESSION_SCHEME: &'static str = "sqlite://";

/// What stands for a session where a path is asked for.
pub open spec fn session_path(id: Seq<char>) -> Seq<char> {
    SESSION_SCHEME@ + id
}

/// What stands for a session where a path is asked for.
pub fn path_of_session(id: &str) -> (r: String)
    ensures
        r@ == session_path(id@),
{
    let mut out = SESSION_SCHEME.to_owned();
    out.append(id);
    out
}

/// The place of the last dot.
pub open spec fn last_dot(s: Seq<char>) -> Option<int>
    decreases s.len(),
{
    if s.len() == 0 {
        None
    } else if s.last() == '.' {
        Some(s.len() - 1)
    } else {
        last_dot(s.drop_last())
    }
}

/// The name of a file without its extension.
pub open spec fn stem(name: Seq<char>) -> Seq<char> {
    match last_dot(name) {
        Some(i) => if i == 0 {
            name
        } else {
            name.take(i)
        },
        None => name,
    }
}

/// The session that a path stands for: what follows the scheme of the database, or else the
/// name of the file without the extension.
pub open spec fn session_id_of(path: Seq<char>) -> Seq<char> {
    let parts = components(path);
    if SESSION_SCHEME@.is_prefix_of(path) {
        path.skip(SESSION_SCHEME@.len() as int)
    } else if parts.len() == 0 || parts.last() == "."@ || parts.last() == ".."@ {
        "default"@
    } else {
        stem(parts.last())
    }
}

fn stem_of(name: &str) -> (r: String)
    ensures
        r@ == stem(name@),
{
    let a = text::chars_of(name);
    let mut i: usize = a.len();
    assert(a@.take(a@.len() as int) =~= a@);
    while i > 0 && a[i - 1] != '.'
        invariant
            i <= a@.len(),
            a@ == name@,
            last_dot(a@.take(i as int)) == last_dot(a@),
        decreases i,
    {
        assert(a@.take(i as int).drop_last() =~= a@.take(i - 1));
        i = i - 1;
    }
    if i > 1 {
        assert(last_dot(a@.take(i as int)) == Some(i - 1));
        let kept = text::string_of(vstd::slice::slice_subrange(a.as_slice(), 0, i - 1));
        assert(kept@ =~= name@.take(i - 1));
        kept
    } else {
        name.to_owned()
    }
}

/// The session that a path stands for.
pub fn extract_session_id(path: &str) -> (r: String)
    ensures
        r@ == session_id_of(path@),
{
    match text::strip_prefix(path, SESSION_SCHEME) {
        Some(id) => {
            return id.to_owned();
        },
        None => {},
    }
    let parts = paths::split_path(path);
    let n = parts.len();
    assert(texts(parts@).len() == parts@.len());
    if n == 0 {
        return "default".to_owned();
    }
    assert(components(path@).last() == parts@[n - 1]@);
    let name = parts[n - 1].as_str();
    if text::same(name, ".") || text::same(name, "..") {
        return "default".to_owned();
    }
    stem_of(name)
}

/// The path that stands for a session leads back to it, whatever its id.
pub proof fn law_session_path(id: Seq<char>)
    ensures
        session_id_of(session_path(id)) == id,
{
    assert(SESSION_SCHEME@.is_prefix_of(session_path(id)));
    assert(session_path(id).skip(SESSION_SCHEME@.len() as int) =~= id);
}

/// The sessions of a list, each with what stands for it where a path is asked for.
pub open spec fn listed_sessions(ids: Seq<Seq<char>>) -> Seq<(Seq<char>, Seq<char>)> {
    ids.map_values(|id: Seq<char>| (id, session_path(id)))
}

/// The sessions of a list, most recent first, each with what stands for it where a path is
/// asked for.
pub fn list_sessions(ids: &[String]) -> (r: Vec<(String, String)>)
    ensures
        pair_views(r@) == listed_sessions(texts(ids@)),
{
    let ghost all = listed_sessions(texts(ids@));
    let mut out: Vec<(String, String)> = Vec::new();
    assert(pair_views(out@) =~= all.take(0));
    let mut i: usize = 0;
    while i < ids.len()
        invariant
            i <= ids@.len(),
            all == listed_sessions(texts(ids@)),
            pair_views(out@) == all.take(i as int),
        decreases ids.len() - i,
    {
        let ghost before = pair_views(out@);
        out.push((ids[i].clone(), path_of_session(ids[i].as_str())));
        assert(pair_views(out@) =~= before.push(all[i as int]));
        i = i + 1;
        assert(pair_views(out@) =~= all.take(i as int));
    }
    assert(all.take(ids@.len() as int) =~= all);
    out
}

/// The first session whose id begins with a prefix.
pub open spec fn found_session(ids: Seq<Seq<char>>, prefix: Seq<char>) -> Option<Seq<char>>
    decreases ids.len(),
{
    if ids.len() == 0 {
        None
    } else if prefix.is_prefix_of(ids[0]) {
        Some(ids[0])
    } else {
        found_session(ids.drop_first(), prefix)
    }
}

/// The first of the sessions, most recent first, whose id begins with a prefix.
pub fn find_session(ids: &[String], prefix: &str) -> (r: Option<(String, String)>)
    ensures
        match found_session(texts(ids@), prefix@) {
            Some(id) => r matches Some(p) && p.0@ == id && p.1@ == session_path(id),
            None => r is None,
        },
{
    let ghost all = texts(ids@);
    let mut i: usize = 0;
    assert(all.skip(0) =~= all);
    while i < ids.len()
        invariant
            i <= ids@.len(),
            all == texts(ids@),
            found_session(all.skip(i as int), prefix@) == found_session(all, prefix@),
        decreases ids.len() - i,
    {
        assert(all.skip(i as int)[0] == ids@[i as int]@);
        assert(all.skip(i as int).drop_first() =~= all.skip(i + 1));
        if text::starts_with(ids[i].as_str(), prefix) {
            return Some((ids[i].clone(), path_of_session(ids[i].as_str())));
        }
        i = i + 1;
    }
    None
}

/// What a stored session holds, made fit to go on from; an error where there is no such
/// session or its messages are not readable.
pub fn load_session(id: &str, known: bool, rows: &[StoredMessage]) -> (r: Result<
    Vec<Message>,
    String,
>)
    ensures
        match (known, stored_messages(rows@)) {
            (false, _) => r matches Err(e) && e@ == "Session not found: "@ + id@,
            (true, None) => r matches Err(e) && e@ == "Query is not read-only"@,
            (true, Some(messages)) => r matches Ok(v) && message_views(v@) == repaired(messages),
        },
{
    if !known {
        let mut e = "Session not found: ".to_owned();
        e.append(id);
        return Err(e);
    }
    match load_messages(rows) {
        Some(messages) => Ok(repair_history(messages)),
        None => Err("Query is not read-only".to_owned()),
    }
}

} // verus!
