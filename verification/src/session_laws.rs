//! What a stored session gives back when it is resumed.

use vstd::prelude::*;
use crate::api::types::{blocks_of, BlockView, MessageView};
use crate::content::{answers_call, ids_called, is_answer, lemma_ids};
use crate::db::{stored_content, stored_message, stored_messages, StoredMessage};
use crate::pairing::{has_results, message_blocks, result_ids, uses_of};
use crate::session::{
    flushed, found_session, last_dot, law_session_path, listed_sessions, lost_results,
    repair_message, repair_messages, repaired, repaired_results, session_id_of, stem, unanswered,
    without_orphans, Repair, LOST_RESULT,
};

verus! {

/// Whether a saved block stays in the message that answers the given calls: it is no tool
/// result, or it is the result of one of them.
pub open spec fn stays(block: BlockView, calls: Seq<Seq<char>>) -> bool {
    block is ToolResult ==> calls.contains(block->ToolResult_tool_use_id)
}

/// The saved blocks that stay, in order.
pub open spec fn staying(saved: Seq<BlockView>, calls: Seq<Seq<char>>) -> Seq<BlockView> {
    saved.filter(|block: BlockView| stays(block, calls))
}

/// The calls whose results were not saved, in order.
pub open spec fn without_result(saved: Seq<BlockView>, calls: Seq<Seq<char>>) -> Seq<Seq<char>> {
    calls.filter(|id: Seq<char>| !answers_call(saved, id))
}

/// Whether blocks answer the given calls with what was saved: first everything that was
/// saved, in order, but for results of other calls; behind it one result that says that
/// it was not saved, marked as an error, for each call without a saved one.
pub open spec fn answers_with_saved(
    answer: Seq<BlockView>,
    saved: Seq<BlockView>,
    calls: Seq<Seq<char>>,
) -> bool {
    let kept = staying(saved, calls);
    let lost = without_result(saved, calls);
    &&& answer.len() == kept.len() + lost.len()
    &&& answer.take(kept.len() as int) == kept
    &&& forall|i: int|
        0 <= i < lost.len() ==> (#[trigger] answer[kept.len() + i]) == (BlockView::ToolResult {
            tool_use_id: lost[i],
            content: LOST_RESULT@,
            is_error: Some(true),
        })
}

proof fn lemma_staying(saved: Seq<BlockView>, calls: Seq<Seq<char>>)
    ensures
        without_orphans(saved, calls) == staying(saved, calls),
    decreases saved.len(),
{
    reveal(Seq::filter);
    if saved.len() > 0 {
        lemma_staying(saved.drop_last(), calls);
    } else {
        assert(saved =~= Seq::empty());
    }
}

proof fn lemma_without_result(
    part: Seq<Seq<char>>,
    saved: Seq<BlockView>,
    calls: Seq<Seq<char>>,
)
    requires
        forall|id: Seq<char>| part.contains(id) ==> calls.contains(id),
    ensures
        unanswered(part, result_ids(without_orphans(saved, calls))) == without_result(saved, part),
    decreases part.len(),
{
    reveal(Seq::filter);
    let kept = without_orphans(saved, calls);
    if part.len() > 0 {
        let init = part.drop_last();
        let id = part.last();
        assert forall|other: Seq<char>| init.contains(other) implies calls.contains(other) by {
            let k = choose|k: int| 0 <= k < init.len() && init[k] == other;
            assert(part[k] == other);
            assert(part.contains(other));
        }
        lemma_without_result(init, saved, calls);
        assert(part[part.len() - 1] == id);
        assert(part.contains(id));
        lemma_staying(saved, calls);
        lemma_ids(kept);
        lemma_stays_answered(saved, calls, id);
    } else {
        assert(part =~= Seq::empty());
    }
}

proof fn lemma_stays_answered(saved: Seq<BlockView>, calls: Seq<Seq<char>>, id: Seq<char>)
    requires
        calls.contains(id),
    ensures
        answers_call(staying(saved, calls), id) <==> answers_call(saved, id),
{
    let pred = |block: BlockView| stays(block, calls);
    let kept = staying(saved, calls);
    broadcast use vstd::seq_lib::group_filter_ensures;
    if answers_call(saved, id) {
        let i = choose|i: int|
            0 <= i < saved.len() && (#[trigger] saved[i]) is ToolResult
                && saved[i]->ToolResult_tool_use_id == id;
        assert(pred(saved[i]));
        assert(kept.contains(saved[i]));
        let k = choose|k: int| 0 <= k < kept.len() && kept[k] == saved[i];
        assert(kept[k] is ToolResult && kept[k]->ToolResult_tool_use_id == id);
    }
    if answers_call(kept, id) {
        let k = choose|k: int|
            0 <= k < kept.len() && (#[trigger] kept[k]) is ToolResult
                && kept[k]->ToolResult_tool_use_id == id;
        assert(kept.contains(kept[k]));
        saved.lemma_filter_contains_rev(pred, kept[k]);
        let i = choose|i: int| 0 <= i < saved.len() && saved[i] == kept[k];
        assert(saved[i] is ToolResult && saved[i]->ToolResult_tool_use_id == id);
    }
}

proof fn lemma_answers_with_saved(saved: Seq<BlockView>, calls: Seq<Seq<char>>)
    ensures
        answers_with_saved(repaired_results(saved, calls), saved, calls),
{
    let answer = repaired_results(saved, calls);
    lemma_staying(saved, calls);
    lemma_without_result(calls, saved, calls);
    assert(answer.take(staying(saved, calls).len() as int) =~= staying(saved, calls));
}

proof fn lemma_answers_with_nothing(calls: Seq<Seq<char>>)
    ensures
        answers_with_saved(lost_results(calls), Seq::empty(), calls),
        without_result(Seq::empty(), calls) == calls,
        staying(Seq::empty(), calls).len() == 0,
{
    let none = Seq::<BlockView>::empty();
    reveal(Seq::filter);
    lemma_nothing_filtered(calls);
    assert(staying(none, calls) =~= Seq::empty());
    assert(lost_results(calls).take(0) =~= staying(none, calls));
}

proof fn lemma_nothing_filtered(calls: Seq<Seq<char>>)
    ensures
        without_result(Seq::empty(), calls) == calls,
    decreases calls.len(),
{
    reveal(Seq::filter);
    if calls.len() > 0 {
        lemma_nothing_filtered(calls.drop_last());
        assert(calls.drop_last().push(calls.last()) =~= calls);
    }
}

proof fn lemma_repair_from(h: Seq<MessageView>, t: Seq<MessageView>)
    requires
        t.len() > 0,
        !has_results(t[0]),
    ensures
        ({
            let whole = repair_messages(h + t);
            let rest = repair_messages(t);
            &&& whole.done == repaired(h) + rest.done
            &&& whole.pending == rest.pending
        }),
    decreases t.len(),
{
    let init = t.drop_last();
    assert((h + t).drop_last() =~= h + init);
    assert((h + t).last() == t.last());
    if init.len() == 0 {
        assert(h + init =~= h);
        assert(t[0] == t.last());
        let none = Repair { done: Seq::empty(), pending: Seq::empty() };
        assert(repair_messages(init) == none);
        assert(flushed(none).push(t[0]) =~= seq![t[0]]);
        assert(repaired(h).push(t[0]) =~= repaired(h) + seq![t[0]]);
    } else {
        assert(init[0] == t[0]);
        lemma_repair_from(h, init);
        let whole = repair_messages(h + init);
        let rest = repair_messages(init);
        assert(repair_message(whole, t.last()).done =~= repaired(h) + repair_message(
            rest,
            t.last(),
        ).done) by {
            assert(flushed(whole) =~= repaired(h) + flushed(rest));
        }
    }
}

/// A history can be repaired piece by piece: where a piece does not begin with tool results,
/// it makes no difference what stands before it.
pub proof fn law_repair_piecewise(h: Seq<MessageView>, t: Seq<MessageView>)
    requires
        t.len() > 0,
        !is_answer(message_blocks(t[0])),
    ensures
        repaired(h + t) == repaired(h) + repaired(t),
{
    lemma_ids(message_blocks(t[0]));
    lemma_repair_from(h, t);
    assert(repaired(h + t) =~= repaired(h) + repaired(t));
}

/// A message without tool results stays as it is. Where it calls tools and no message
/// follows it, a message of the user behind it answers each call, in order, with a result
/// that was not saved.
pub proof fn law_repair_last_message(message: MessageView)
    requires
        !is_answer(message_blocks(message)),
    ensures
        ({
            let out = repaired(seq![message]);
            let calls = ids_called(message_blocks(message));
            &&& out[0] == message
            &&& out.len() == if calls.len() > 0 {
                2nat
            } else {
                1nat
            }
            &&& calls.len() > 0 ==> {
                &&& out[1].role == "user"@
                &&& out[1].content is Blocks
                &&& answers_with_saved(message_blocks(out[1]), Seq::empty(), calls)
                &&& without_result(Seq::empty(), calls) == calls
            }
        }),
{
    let calls = ids_called(message_blocks(message));
    lemma_ids(message_blocks(message));
    lemma_answers_with_nothing(calls);
    lemma_one(message);
}

proof fn lemma_one(message: MessageView)
    requires
        !has_results(message),
    ensures
        repair_messages(seq![message]) == (Repair {
            done: seq![message],
            pending: uses_of(message),
        }),
{
    assert(seq![message].drop_last() =~= Seq::empty());
    let none = Repair { done: Seq::empty(), pending: Seq::empty() };
    assert(repair_messages(Seq::empty()) == none);
    assert(flushed(none).push(message) =~= seq![message]);
}

/// A message without tool results and the saved results behind it: the message stays, and
/// the one behind it keeps its role and answers its calls with what was saved. It is gone
/// only where nothing is left of it.
pub proof fn law_repair_exchange(message: MessageView, results: MessageView)
    requires
        !is_answer(message_blocks(message)),
        is_answer(message_blocks(results)),
    ensures
        ({
            let out = repaired(seq![message, results]);
            let calls = ids_called(message_blocks(message));
            let saved = message_blocks(results);
            let left = staying(saved, calls).len() + without_result(saved, calls).len();
            &&& out[0] == message
            &&& out.len() == if left > 0 {
                2nat
            } else {
                1nat
            }
            &&& left > 0 ==> {
                &&& out[1].role == results.role
                &&& out[1].content is Blocks
                &&& answers_with_saved(message_blocks(out[1]), saved, calls)
            }
        }),
{
    let calls = ids_called(message_blocks(message));
    let saved = message_blocks(results);
    lemma_ids(message_blocks(message));
    lemma_ids(saved);
    lemma_one(message);
    assert(seq![message, results].drop_last() =~= seq![message]);
    lemma_answers_with_saved(saved, calls);
}

/// Tool results that follow no tool call, since they stand first or behind other tool
/// results, are dropped; what else their message holds stays.
pub proof fn law_repair_stray_results(h: Seq<MessageView>, results: MessageView)
    requires
        is_answer(message_blocks(results)),
        h.len() > 0 ==> is_answer(message_blocks(h.last())),
    ensures
        ({
            let left = message_blocks(results).filter(|block: BlockView| !(block is ToolResult));
            repaired(h.push(results)) == if left.len() > 0 {
                repaired(h).push(blocks_of(results.role, left))
            } else {
                repaired(h)
            }
        }),
{
    let saved = message_blocks(results);
    let calls = Seq::<Seq<char>>::empty();
    lemma_ids(saved);
    if h.len() > 0 {
        lemma_ids(message_blocks(h.last()));
    }
    assert(h.push(results).drop_last() =~= h);
    assert(repair_messages(h).pending =~= calls);
    lemma_staying(saved, calls);
    let pred = |block: BlockView| !(block is ToolResult);
    let same = |block: BlockView| stays(block, calls);
    lemma_same_filter(saved, pred, same);
    assert(unanswered(calls, result_ids(staying(saved, calls))) =~= Seq::empty());
    assert(repaired_results(saved, calls) =~= staying(saved, calls));
}

proof fn lemma_same_filter(
    blocks: Seq<BlockView>,
    a: spec_fn(BlockView) -> bool,
    b: spec_fn(BlockView) -> bool,
)
    requires
        forall|block: BlockView| a(block) == #[trigger] b(block),
    ensures
        blocks.filter(a) == blocks.filter(b),
    decreases blocks.len(),
{
    reveal(Seq::filter);
    if blocks.len() > 0 {
        lemma_same_filter(blocks.drop_last(), a, b);
        assert(a(blocks.last()) == b(blocks.last()));
    }
}

proof fn lemma_grows(messages: Seq<MessageView>, n: int)
    requires
        0 <= n < messages.len(),
    ensures
        repair_messages(messages.take(n)).done.is_prefix_of(
            repair_messages(messages.take(n + 1)).done,
        ),
{
    assert(messages.take(n + 1).drop_last() =~= messages.take(n));
    let r = repair_messages(messages.take(n));
    assert(r.done.is_prefix_of(flushed(r)));
}

proof fn lemma_grows_to(messages: Seq<MessageView>, n: int)
    requires
        0 <= n <= messages.len(),
    ensures
        repair_messages(messages.take(n)).done.is_prefix_of(repaired(messages)),
    decreases messages.len() - n,
{
    if n == messages.len() {
        assert(messages.take(n) =~= messages);
    } else {
        lemma_grows(messages, n);
        lemma_grows_to(messages, n + 1);
    }
}

/// Wherever a message without tool results stands in a history, it stays, behind what the
/// messages before it become. The message behind it answers its tool calls: every saved
/// result of one of them is there, with its content and its error mark, and a result is
/// made up only for a call that has no saved one in the next message, once for each.
pub proof fn law_repair_keeps_saved_results(messages: Seq<MessageView>, k: int)
    requires
        0 <= k < messages.len(),
        !is_answer(message_blocks(messages[k])),
    ensures
        ({
            let out = repaired(messages);
            let j = repaired(messages.take(k)).len() as int;
            let calls = ids_called(message_blocks(messages[k]));
            let saved = if k + 1 < messages.len() && is_answer(message_blocks(messages[k + 1])) {
                message_blocks(messages[k + 1])
            } else {
                Seq::empty()
            };
            let answer = message_blocks(out[j + 1]);
            &&& out.len() > j
            &&& out.take(j) == repaired(messages.take(k))
            &&& out[j] == messages[k]
            &&& calls.len() > 0 ==> {
                &&& out.len() > j + 1
                &&& out[j + 1].content is Blocks
                &&& out[j + 1].role == if saved.len() > 0 {
                    messages[k + 1].role
                } else {
                    "user"@
                }
                &&& answers_with_saved(answer, saved, calls)
                &&& forall|i: int|
                    0 <= i < saved.len() && stays(#[trigger] saved[i], calls) ==> answer.contains(
                        saved[i],
                    )
                &&& forall|i: int|
                    0 <= i < answer.len() && !saved.contains(#[trigger] answer[i]) ==> {
                        &&& answer[i] is ToolResult
                        &&& calls.contains(answer[i]->ToolResult_tool_use_id)
                        &&& !answers_call(saved, answer[i]->ToolResult_tool_use_id)
                        &&& answer[i]->ToolResult_content == LOST_RESULT@
                        &&& answer[i]->ToolResult_is_error == Some(true)
                    }
                &&& forall|i: int|
                    0 <= i < calls.len() ==> answers_call(answer, #[trigger] calls[i])
            }
        }),
{
    let out = repaired(messages);
    let before = messages.take(k);
    let message = messages[k];
    let j = repaired(before).len() as int;
    let calls = ids_called(message_blocks(message));
    lemma_ids(message_blocks(message));
    let one = messages.take(k + 1);
    assert(one.drop_last() =~= before);
    assert(one.last() == message);
    let r = repair_messages(one);
    assert(r.done =~= repaired(before).push(message));
    assert(r.pending == calls);
    lemma_grows_to(messages, k + 1);
    assert(out.take(j) =~= repaired(before));
    assert(out[j] == r.done[j]);
    let follows = k + 1 < messages.len() && is_answer(message_blocks(messages[k + 1]));
    let saved = if follows {
        message_blocks(messages[k + 1])
    } else {
        Seq::empty()
    };
    if calls.len() > 0 {
        lemma_answers_with_saved(saved, calls);
        lemma_answers_with_nothing(calls);
        let made = repaired_results(saved, calls);
        if k + 1 == messages.len() {
            assert(one =~= messages);
            assert(out == flushed(r));
            assert(out[j + 1] == blocks_of("user"@, lost_results(calls)));
        } else {
            let two = messages.take(k + 2);
            assert(two.drop_last() =~= one);
            assert(two.last() == messages[k + 1]);
            lemma_ids(message_blocks(messages[k + 1]));
            lemma_grows_to(messages, k + 2);
            let after = repair_messages(two);
            if follows {
                lemma_answered(made, saved, calls, 0);
                assert(after.done[j + 1] == blocks_of(messages[k + 1].role, made));
            } else {
                assert(after.done[j + 1] == blocks_of("user"@, lost_results(calls)));
            }
            assert(out[j + 1] == after.done[j + 1]);
        }
        let answer = message_blocks(out[j + 1]);
        lemma_saved_kept(answer, saved, calls);
        assert forall|i: int| 0 <= i < calls.len() implies answers_call(answer, #[trigger] calls[i])
            by {
            lemma_answered(answer, saved, calls, i);
        }
    }
}

proof fn lemma_saved_kept(answer: Seq<BlockView>, saved: Seq<BlockView>, calls: Seq<Seq<char>>)
    requires
        answers_with_saved(answer, saved, calls),
    ensures
        forall|i: int|
            0 <= i < saved.len() && stays(#[trigger] saved[i], calls) ==> answer.contains(saved[i]),
        forall|i: int|
            0 <= i < answer.len() && !saved.contains(#[trigger] answer[i]) ==> {
                &&& answer[i] is ToolResult
                &&& calls.contains(answer[i]->ToolResult_tool_use_id)
                &&& !answers_call(saved, answer[i]->ToolResult_tool_use_id)
                &&& answer[i]->ToolResult_content == LOST_RESULT@
                &&& answer[i]->ToolResult_is_error == Some(true)
            },
{
    let pred = |block: BlockView| stays(block, calls);
    let open_calls = |id: Seq<char>| !answers_call(saved, id);
    let kept = staying(saved, calls);
    let lost = without_result(saved, calls);
    broadcast use vstd::seq_lib::group_filter_ensures;
    assert forall|i: int| 0 <= i < saved.len() && stays(#[trigger] saved[i], calls) implies
        answer.contains(saved[i]) by {
        assert(pred(saved[i]));
        assert(kept.contains(saved[i]));
        let n = choose|n: int| 0 <= n < kept.len() && kept[n] == saved[i];
        assert(answer.take(kept.len() as int)[n] == answer[n]);
    }
    assert forall|i: int| 0 <= i < answer.len() && !saved.contains(#[trigger] answer[i]) implies {
        &&& answer[i] is ToolResult
        &&& calls.contains(answer[i]->ToolResult_tool_use_id)
        &&& !answers_call(saved, answer[i]->ToolResult_tool_use_id)
        &&& answer[i]->ToolResult_content == LOST_RESULT@
        &&& answer[i]->ToolResult_is_error == Some(true)
    } by {
        if i < kept.len() {
            assert(answer.take(kept.len() as int)[i] == answer[i]);
            assert(kept.contains(kept[i]));
            saved.lemma_filter_contains_rev(pred, kept[i]);
        } else {
            let n = i - kept.len();
            assert(answer[kept.len() + n] is ToolResult);
            assert(lost.contains(lost[n]));
            calls.lemma_filter_contains_rev(open_calls, lost[n]);
            assert(open_calls(lost[n]));
        }
    }
}

proof fn lemma_answered(
    answer: Seq<BlockView>,
    saved: Seq<BlockView>,
    calls: Seq<Seq<char>>,
    i: int,
)
    requires
        answers_with_saved(answer, saved, calls),
        0 <= i < calls.len(),
    ensures
        answers_call(answer, calls[i]),
        answer.len() > 0,
{
    let id = calls[i];
    let open_calls = |id: Seq<char>| !answers_call(saved, id);
    let kept = staying(saved, calls);
    let lost = without_result(saved, calls);
    broadcast use vstd::seq_lib::group_filter_ensures;

    assert(calls.contains(id));
    if answers_call(saved, id) {
        lemma_stays_answered(saved, calls, id);
        let n = choose|n: int|
            0 <= n < kept.len() && (#[trigger] kept[n]) is ToolResult
                && kept[n]->ToolResult_tool_use_id == id;
        assert(answer.take(kept.len() as int)[n] == answer[n]);
        assert(answer[n] is ToolResult && answer[n]->ToolResult_tool_use_id == id);
    } else {
        assert(open_calls(calls[i]));
        assert(lost.contains(calls[i]));
        let n = choose|n: int| 0 <= n < lost.len() && lost[n] == id;
        assert(answer[kept.len() + n] is ToolResult);
        assert(answer[kept.len() + n]->ToolResult_tool_use_id == id);
    }
}

/// The messages of a stored session are loaded if and only if each of them is readable; then
/// each is there, in order, with its role and what its stored content stands for.
pub proof fn law_messages_loaded(rows: Seq<StoredMessage>)
    ensures
        stored_messages(rows) is Some <==> (forall|i: int|
            0 <= i < rows.len() ==> stored_content((#[trigger] rows[i]).content@) is Some),
        stored_messages(rows) matches Some(messages) ==> {
            &&& messages.len() == rows.len()
            &&& forall|i: int|
                0 <= i < rows.len() ==> {
                    &&& (#[trigger] messages[i]).role == rows[i].role@
                    &&& stored_content(rows[i].content@) == Some(messages[i].content)
                }
        },
    decreases rows.len(),
{
    if rows.len() > 0 {
        let init = rows.drop_last();
        law_messages_loaded(init);
        assert(rows[rows.len() - 1] == rows.last());
        assert forall|i: int| 0 <= i < init.len() implies #[trigger] init[i] == rows[i] by {}
        if stored_messages(init) is Some && stored_message(rows.last()) is Some {
            assert forall|i: int| 0 <= i < rows.len() implies stored_content(
                (#[trigger] rows[i]).content@,
            ) is Some by {
                if i < init.len() {
                    assert(stored_content(init[i].content@) is Some);
                }
            }
        }
        if forall|i: int|
            0 <= i < rows.len() ==> stored_content((#[trigger] rows[i]).content@) is Some {
            assert forall|i: int| 0 <= i < init.len() implies stored_content(
                (#[trigger] init[i]).content@,
            ) is Some by {
                assert(stored_content(rows[i].content@) is Some);
            }
        }
    }
}

/// A session is found by the beginning of its id: it is the first in the list whose id
/// begins so, and none is found only where no id does.
pub proof fn law_session_found(ids: Seq<Seq<char>>, prefix: Seq<char>)
    ensures
        match found_session(ids, prefix) {
            Some(id) => exists|i: int|
                0 <= i < ids.len() && #[trigger] ids[i] == id && prefix.is_prefix_of(id)
                    && forall|k: int| 0 <= k < i ==> !prefix.is_prefix_of(#[trigger] ids[k]),
            None => forall|k: int|
                0 <= k < ids.len() ==> !prefix.is_prefix_of(#[trigger] ids[k]),
        },
    decreases ids.len(),
{
    if ids.len() > 0 {
        let rest = ids.drop_first();
        law_session_found(rest, prefix);
        if prefix.is_prefix_of(ids[0]) {
            assert(ids[0] == found_session(ids, prefix)->Some_0);
        } else if found_session(rest, prefix) is Some {
            let id = found_session(rest, prefix)->Some_0;
            let i = choose|i: int|
                0 <= i < rest.len() && #[trigger] rest[i] == id && prefix.is_prefix_of(id)
                    && forall|k: int| 0 <= k < i ==> !prefix.is_prefix_of(#[trigger] rest[k]);
            assert(ids[i + 1] == id);
            assert forall|k: int| 0 <= k < i + 1 implies !prefix.is_prefix_of(
                #[trigger] ids[k],
            ) by {
                if k > 0 {
                    assert(rest[k - 1] == ids[k]);
                }
            }
        } else {
            assert forall|k: int| 0 <= k < ids.len() implies !prefix.is_prefix_of(
                #[trigger] ids[k],
            ) by {
                if k > 0 {
                    assert(rest[k - 1] == ids[k]);
                }
            }
        }
    }
}

/// The name of a file without its extension is what stands before the last dot; a name
/// without a dot, or with one only at its beginning, stays as it is.
pub proof fn law_stem(base: Seq<char>, extension: Seq<char>)
    requires
        !extension.contains('.'),
    ensures
        base.len() > 0 ==> stem(base + seq!['.'] + extension) == base,
        stem(seq!['.'] + extension) == seq!['.'] + extension,
        stem(extension) == extension,
{
    let whole = base + seq!['.'] + extension;
    lemma_last_dot(base, extension);
    assert(whole.take(base.len() as int) =~= base);
    lemma_last_dot(Seq::empty(), extension);
    assert(Seq::<char>::empty() + seq!['.'] + extension =~= seq!['.'] + extension);
    lemma_no_dot(extension);
}

proof fn lemma_last_dot(base: Seq<char>, extension: Seq<char>)
    requires
        !extension.contains('.'),
    ensures
        last_dot(base + seq!['.'] + extension) == Some(base.len() as int),
    decreases extension.len(),
{
    let whole = base + seq!['.'] + extension;
    if extension.len() == 0 {
        assert(whole.last() == '.');
    } else {
        let init = extension.drop_last();
        assert(extension.contains(extension[extension.len() - 1]));
        assert forall|i: int| 0 <= i < init.len() implies init[i] != '.' by {
            assert(extension.contains(extension[i]));
        }
        lemma_last_dot(base, init);
        assert(whole.drop_last() =~= base + seq!['.'] + init);
        assert(whole.last() == extension.last());
    }
}

proof fn lemma_no_dot(name: Seq<char>)
    requires
        !name.contains('.'),
    ensures
        last_dot(name) is None,
    decreases name.len(),
{
    if name.len() > 0 {
        assert(name.contains(name[name.len() - 1]));
        let init = name.drop_last();
        assert forall|i: int| 0 <= i < init.len() implies init[i] != '.' by {
            assert(name.contains(name[i]));
        }
        lemma_no_dot(init);
    }
}

/// A list of sessions names each of them, in order, with a path that leads back to it.
pub proof fn law_sessions_listed(ids: Seq<Seq<char>>)
    ensures
        listed_sessions(ids).len() == ids.len(),
        forall|i: int|
            0 <= i < ids.len() ==> (#[trigger] listed_sessions(ids)[i]).0 == ids[i]
                && session_id_of(listed_sessions(ids)[i].1) == ids[i],
{
    assert forall|i: int| 0 <= i < ids.len() implies (#[trigger] listed_sessions(ids)[i]).0
        == ids[i] && session_id_of(listed_sessions(ids)[i].1) == ids[i] by {
        law_session_path(ids[i]);
    }
}

} // verus!
