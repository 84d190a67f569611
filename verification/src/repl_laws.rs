//! What the user of a session on the command line is shown, and what a line does.

use vstd::prelude::*;
use crate::api::types::{BlockView, ContentView, MessageView};
use crate::commands::{parsed, Surface};
use crate::cost::{cost_text, shown, summary, CostTracker};
use crate::json::JsonView;
use crate::query::UiView;
use crate::repl::{
    choices_of, line_action, permission_answer, permission_prompt, permission_prompt_with_diff,
    permission_question, replay, replayed_block, replayed_blocks, replayed_message,
    replayed_messages, said, set_in, Screen,
};
use crate::repl_loop::{HappenedView, ReplPhase, ReplToDo, ReplView};
use crate::text::{decimal, line_texts, lowercased, occurs, sanitized, trimmed};
use crate::text_laws::{
    lemma_at_end, lemma_between, lemma_in_front, lemma_in_rear, lemma_occurs_in,
};

verus! {

proof fn lemma_replay_concat(
    start: Seq<char>,
    model: Seq<char>,
    a: Seq<MessageView>,
    b: Seq<MessageView>,
)
    ensures
        replayed_messages(start, model, a + b) == replayed_messages(
            replayed_messages(start, model, a),
            model,
            b,
        ),
        replayed_messages(start, model, b) == start + replayed_messages(Seq::empty(), model, b),
    decreases b.len(),
{
    if b.len() == 0 {
        assert(a + b =~= a);
        assert(start + Seq::<char>::empty() =~= start);
    } else {
        let init = b.drop_last();
        lemma_replay_concat(start, model, a, init);
        assert((a + b).drop_last() =~= a + init);
        assert((a + b).last() == b.last());
        let last = replayed_message(model, b.last());
        assert(start + (replayed_messages(Seq::empty(), model, init) + last) =~= start
            + replayed_messages(Seq::empty(), model, init) + last);
    }
}

proof fn lemma_message_shown(
    start: Seq<char>,
    model: Seq<char>,
    messages: Seq<MessageView>,
    i: int,
)
    requires
        0 <= i < messages.len(),
    ensures
        occurs(replayed_message(model, messages[i]), replayed_messages(start, model, messages)),
    decreases messages.len(),
{
    let init = messages.drop_last();
    let before = replayed_messages(start, model, init);
    let last = replayed_message(model, messages.last());
    if i < init.len() {
        lemma_message_shown(start, model, init, i);
        assert(init[i] == messages[i]);
        lemma_in_front(replayed_message(model, messages[i]), before, last);
    } else {
        lemma_at_end(before, last);
    }
}

proof fn lemma_block_shown(model: Seq<char>, blocks: Seq<BlockView>, k: int)
    requires
        0 <= k < blocks.len(),
    ensures
        occurs(replayed_block(model, blocks[k]), replayed_blocks(model, blocks)),
    decreases blocks.len(),
{
    let init = blocks.drop_last();
    let before = replayed_blocks(model, init);
    let last = replayed_block(model, blocks.last());
    if k < init.len() {
        lemma_block_shown(model, init, k);
        assert(init[k] == blocks[k]);
        lemma_in_front(replayed_block(model, blocks[k]), before, last);
    } else {
        lemma_at_end(before, last);
    }
}

proof fn lemma_said(model: Seq<char>, text: Seq<char>)
    ensures
        occurs(sanitized(text), said(model, text)),
{
    lemma_between("\x1b[2m● "@ + model + "\x1b[0m "@, sanitized(text), "\n"@);
}

/// A session that goes on is shown to the user as it was: of the messages that are shown,
/// every text of the user and of the assistant is there, and every tool that was called is
/// named.
pub proof fn law_replay_shows(
    messages: Seq<MessageView>,
    model: Seq<char>,
    keep: nat,
    i: int,
    k: int,
)
    requires
        0 <= i < messages.len(),
        messages.len() - i <= keep,
    ensures
        ({
            let seen = replay(messages, model, keep);
            let role = messages[i].role;
            match messages[i].content {
                ContentView::Text(text) => role == "user"@ || role == "assistant"@ ==> occurs(
                    sanitized(text),
                    seen,
                ),
                ContentView::Blocks(blocks) => role == "assistant"@ && 0 <= k < blocks.len() ==> {
                    &&& blocks[k] matches BlockView::Text { text } ==> occurs(sanitized(text), seen)
                    &&& blocks[k] matches BlockView::ToolUse { id, name, input } ==> occurs(
                        sanitized(name),
                        seen,
                    )
                    &&& blocks[k] matches BlockView::Image { source } ==> occurs(
                        source.media_type,
                        seen,
                    )
                },
            }
        }),
{
    let seen = replay(messages, model, keep);
    let skipped = crate::repl::left_out(messages.len(), keep);
    let start = if skipped > 0 {
        "  \x1b[2m… "@ + decimal(skipped)
            + " earlier messages not shown (full history is in context)\x1b[0m\n"@
    } else {
        Seq::empty()
    };
    let rest = messages.skip(skipped as int);
    let all = replayed_messages(start, model, rest);
    assert(rest[i - skipped] == messages[i]);
    lemma_message_shown(start, model, rest, i - skipped);
    let one = replayed_message(model, messages[i]);
    lemma_in_front(one, all, "\n"@);
    match messages[i].content {
        ContentView::Text(text) => {
            lemma_said(model, text);
            lemma_between("\x1b[1;34m>\x1b[0m "@, sanitized(text), "\n"@);
            if messages[i].role == "user"@ || messages[i].role == "assistant"@ {
                lemma_occurs_in(sanitized(text), one, seen);
            }
        },
        ContentView::Blocks(blocks) => {
            if messages[i].role == "assistant"@ && 0 <= k < blocks.len() {
                let block = replayed_block(model, blocks[k]);
                lemma_block_shown(model, blocks, k);
                lemma_occurs_in(block, one, seen);
                match blocks[k] {
                    BlockView::Text { text } => {
                        lemma_said(model, text);
                        lemma_occurs_in(sanitized(text), block, seen);
                    },
                    BlockView::ToolUse { id, name, input } => {
                        lemma_between("  \x1b[2m["@, sanitized(name), "] ✓\x1b[0m\n"@);
                        lemma_occurs_in(sanitized(name), block, seen);
                    },
                    BlockView::Image { source } => {
                        lemma_between(
                            "  \x1b[2m[attached "@,
                            source.media_type,
                            " image]\x1b[0m\n"@,
                        );
                        lemma_occurs_in(source.media_type, block, seen);
                    },
                    _ => {},
                }
            }
        },
    }
}

/// Of a long session the last messages are shown, as if there were no others, behind a line that
/// tells how many were left out. A short one is shown whole, in order.
pub proof fn law_replay_keeps_the_end(messages: Seq<MessageView>, model: Seq<char>, keep: nat)
    ensures
        ({
            let seen = replay(messages, model, keep);
            let n = messages.len();
            &&& n > keep ==> {
                &&& replay(messages.skip(n - keep), model, keep).is_suffix_of(seen)
                &&& occurs(decimal((n - keep) as nat), seen)
                &&& seen.len() > replay(messages.skip(n - keep), model, keep).len()
            }
            &&& n <= keep && n > 0 ==> replay(messages, model, keep) + "\n"@ == replay(
                messages.drop_last(),
                model,
                keep,
            ).drop_last() + replay(seq![messages.last()], model, keep) + "\n"@
        }),
{
    let n = messages.len();
    reveal_strlit("\n");
    assert("\n"@.len() == 1);
    if n > keep {
        let skipped = (n - keep) as nat;
        let rest = messages.skip(skipped as int);
        let before = "  \x1b[2m… "@;
        let behind = " earlier messages not shown (full history is in context)\x1b[0m\n"@;
        let start = before + decimal(skipped) + behind;
        lemma_replay_concat(start, model, Seq::empty(), rest);
        lemma_between(before, decimal(skipped), behind);
        let seen = replay(messages, model, keep);
        let own = replay(rest, model, keep);
        assert(rest.skip(0) =~= rest);
        assert(seen =~= start + own);
        assert(seen.subrange(seen.len() - own.len(), seen.len() as int) =~= own);
        lemma_in_front(decimal(skipped), start, own);
        reveal_strlit(" earlier messages not shown (full history is in context)\x1b[0m\n");
        assert(behind.len() > 0);
    } else if n > 0 {
        let init = messages.drop_last();
        let one = seq![messages.last()];
        assert(messages.skip(0) =~= messages);
        assert(init.skip(0) =~= init);
        assert(one.skip(0) =~= one);
        assert(one.drop_last() =~= Seq::empty());
        let shown_before = replayed_messages(Seq::empty(), model, init);
        assert((shown_before + "\n"@).drop_last() =~= shown_before);
        let last = replayed_message(model, messages.last());
        reveal_with_fuel(replayed_messages, 2);
        assert(Seq::<char>::empty() + last =~= last);
        assert(replay(one, model, keep) =~= last + "\n"@);
        assert(shown_before + last + "\n"@ + "\n"@ =~= shown_before + (last + "\n"@) + "\n"@);
    }
}

proof fn lemma_set_in(lines: Seq<Seq<char>>, k: int)
    requires
        0 <= k < lines.len(),
    ensures
        occurs(lines[k], set_in(lines)),
    decreases lines.len(),
{
    let before = set_in(lines.drop_last());
    if k < lines.len() - 1 {
        lemma_set_in(lines.drop_last(), k);
        assert(lines.drop_last()[k] == lines[k]);
        lemma_in_front(lines[k], before, "  "@);
        lemma_in_front(lines[k], before + "  "@, lines.last());
        lemma_in_front(lines[k], before + "  "@ + lines.last(), "\n"@);
    } else {
        lemma_between(before + "  "@, lines[k], "\n"@);
    }
}

/// The question for a permission shows what is asked for, made harmless, and the choices; with
/// a change of a file it shows every line of the change.
pub proof fn law_question_shown(
    tool_name: Seq<char>,
    about: Seq<char>,
    diff: Seq<char>,
    k: int,
)
    requires
        0 <= k < line_texts(sanitized(diff)).len(),
    ensures
        occurs(sanitized(about), permission_prompt(tool_name, about)),
        occurs(choices_of(tool_name), permission_prompt(tool_name, about)),
        occurs(sanitized(about), permission_prompt_with_diff(tool_name, about, diff)),
        occurs(choices_of(tool_name), permission_prompt_with_diff(tool_name, about, diff)),
        occurs(
            line_texts(sanitized(diff))[k],
            permission_prompt_with_diff(tool_name, about, diff),
        ),
{
    let lines = line_texts(sanitized(diff));
    let a = "\n  \x1b[33m⚡ "@;
    let b = "\x1b[0m  \x1b[2m"@;
    let c = "\x1b[0m"@;
    let choices = choices_of(tool_name);
    let question = permission_question(tool_name, about);
    lemma_between(a, sanitized(about), b + choices + c);
    assert(question =~= a + sanitized(about) + (b + choices + c));
    lemma_between(a + sanitized(about) + b, choices, c);
    lemma_in_front(sanitized(about), question, " "@);
    lemma_in_front(choices, question, " "@);
    let head = "\n\n  \x1b[2m--- Diff Preview ---\x1b[0m\n"@;
    let end = "  \x1b[2m--- End Diff ---\x1b[0m\n\n  Allow? "@;
    let whole = permission_prompt_with_diff(tool_name, about, diff);
    let more = head + set_in(lines) + end;
    assert(whole =~= question + more);
    lemma_in_front(sanitized(about), question, more);
    lemma_in_front(choices, question, more);
    lemma_set_in(lines, k);
    lemma_between(question + head, set_in(lines), end);
    lemma_occurs_in(lines[k], set_in(lines), whole);
}

/// Everything that happens in a turn is shown: texts, tools, notices, what was said in the
/// meantime, the reason for a retry and questions. Only an error is written as an error, and
/// nothing else is.
pub proof fn law_events_shown(screen: Screen, event: UiView, model: Seq<char>)
    ensures
        ({
            let written = screen.written(event, model);
            &&& !(event is Error) ==> written.err.len() == 0
            &&& event is Error ==> written.out.len() == 0
            &&& event matches UiView::Error(e) ==> occurs(sanitized(e), written.err)
            &&& event matches UiView::Text(t) ==> sanitized(t).is_suffix_of(written.out)
            &&& event matches UiView::Text(t) ==> (screen.first_text ==> occurs(model, written.out))
            &&& event matches UiView::Notice(n) ==> occurs(n, written.out)
            &&& event matches UiView::Retry(n) ==> occurs(n, written.out)
            &&& event matches UiView::SteeringSent(t) ==> occurs(t, written.out)
            &&& event matches UiView::ToolStart { name, summary: about } ==> occurs(
                sanitized(name),
                written.out,
            ) && occurs(sanitized(about), written.out)
            &&& event matches UiView::PermissionRequest { tool_name, summary: about, diff, input }
                ==> (match diff {
                Some(d) => permission_prompt_with_diff(tool_name, about, d),
                None => permission_prompt(tool_name, about),
            }).is_suffix_of(written.out)
        }),
{
    reveal_strlit("");
    let written = screen.written(event, model);
    let line = screen.line_end();
    match event {
        UiView::Error(e) => {
            lemma_between("\n\x1b[31mError: "@, sanitized(e), "\x1b[0m\n"@);
        },
        UiView::Text(t) => {
            let head = screen.heading(model);
            let out = written.out;
            assert(out.subrange(out.len() - sanitized(t).len(), out.len() as int) =~= sanitized(t));
            if screen.first_text {
                lemma_between("\r\x1b[2m● "@, model, " \x1b[0m"@);
                lemma_in_rear(model, line, head);
                lemma_in_front(model, line + head, sanitized(t));
            }
        },
        UiView::Notice(n) => {
            lemma_between(line + "\n  \x1b[2m["@, n, "]\x1b[0m\n"@);
        },
        UiView::Retry(n) => {
            lemma_between(line + "\n  \x1b[2m[discarding rejected response: "@, n, "]\x1b[0m\n"@);
        },
        UiView::SteeringSent(t) => {
            lemma_between(line + "\n  \x1b[2m↳ steering sent: "@, t, "\x1b[0m\n"@);
        },
        UiView::ToolStart { name, summary: about } => {
            let a = "\n  \x1b[2m["@;
            let b = "]\x1b[0m "@;
            lemma_between(a, sanitized(name), b + sanitized(about) + " "@);
            assert(written.out =~= a + sanitized(name) + (b + sanitized(about) + " "@));
            lemma_between(a + sanitized(name) + b, sanitized(about), " "@);
        },
        UiView::PermissionRequest { tool_name, summary: about, diff, input } => {
            let asked = match diff {
                Some(d) => permission_prompt_with_diff(tool_name, about, d),
                None => permission_prompt(tool_name, about),
            };
            let out = written.out;
            assert(out.subrange(out.len() - asked.len(), out.len() as int) =~= asked);
        },
        _ => {},
    }
}

/// The name of the model stands in front of the first text of a response, and of no other; a
/// response that was rejected starts anew. The two outcomes of a tool look different.
pub proof fn law_heading_once(screen: Screen, text: Seq<char>, reason: Seq<char>, model: Seq<char>)
    ensures
        ({
            let after = screen.after(UiView::Text(text));
            &&& !after.in_tool
            &&& after.written(UiView::Text(text), model).out == sanitized(text)
        }),
        screen.after(UiView::Retry(reason)).first_text,
        screen.written(UiView::ToolResult { is_error: true }, model) != screen.written(
            UiView::ToolResult { is_error: false },
            model,
        ),
{
    reveal_strlit("");
    let after = screen.after(UiView::Text(text));
    assert(after.written(UiView::Text(text), model).out =~= sanitized(text));
    reveal_strlit("\x1b[31m✗\x1b[0m");
    reveal_strlit("\x1b[32m✓\x1b[0m");
    assert("\x1b[31m✗\x1b[0m"@[3] == '1');
    assert("\x1b[32m✓\x1b[0m"@[3] == '2');
}

/// The line behind a question for a permission answers that question, for the tool and the
/// input that it was about, whatever came before; the turn goes on.
pub proof fn law_answer_to_question(
    r: ReplView,
    tool_name: Seq<char>,
    about: Seq<char>,
    diff: Option<Seq<char>>,
    input: JsonView,
    line: Seq<char>,
    model: Seq<char>,
)
    requires
        r.phase == ReplPhase::InTurn,
    ensures
        ({
            let event = UiView::PermissionRequest { tool_name, summary: about, diff, input };
            let asked = r.after(HappenedView::Event(event));
            let answered = asked.after(HappenedView::Line(line));
            &&& asked.phase == ReplPhase::Answering
            &&& asked.reaction(HappenedView::Line(line), model).todo == ReplToDo::Answer(
                permission_answer(tool_name, input, lowercased(trimmed(line))),
            )
            &&& answered.phase == ReplPhase::InTurn
            &&& answered == (ReplView { phase: ReplPhase::InTurn, ..asked })
        }),
{
}

/// A line that is no command starts a turn with what it says, without the whitespace around it;
/// a blank line does nothing. What ends a session ends it at once.
pub proof fn law_line_starts_turn(r: ReplView, line: Seq<char>, model: Seq<char>)
    requires
        r.phase == ReplPhase::Prompting,
    ensures
        ({
            let reaction = r.reaction(HappenedView::Line(line), model);
            let after = r.after(HappenedView::Line(line));
            &&& trimmed(line).len() == 0 ==> reaction.todo is Wait && after == r
            &&& trimmed(line).len() > 0 && parsed(trimmed(line), Surface::Repl) is None ==> {
                &&& reaction.todo == ReplToDo::StartTurn(trimmed(line))
                &&& after.phase == ReplPhase::InTurn
                &&& after.screen.first_text
                &&& !after.screen.in_tool
                &&& !after.ended
                &&& after.failure is None
            }
            &&& line_action(line) is Exit ==> reaction.todo is Quit && after.phase
                == ReplPhase::Over
            &&& reaction.todo is Quit <==> after.phase == ReplPhase::Over
        }),
{
}

proof fn lemma_tokens_told(price: Seq<char>, went_in: Seq<char>, came_out: Seq<char>)
    ensures
        ({
            let told = "Cost: "@ + price + " | Tokens: "@ + went_in + "in / "@ + came_out + "out"@;
            &&& occurs(price, told)
            &&& occurs(went_in + "in"@, told)
            &&& occurs(came_out + "out"@, told)
        }),
{
    let front = "Cost: "@ + price + " | Tokens: "@;
    let told = front + went_in + "in / "@ + came_out + "out"@;
    reveal_strlit("in / ");
    reveal_strlit("in");
    reveal_strlit(" / ");
    assert("in / "@ =~= "in"@ + " / "@);
    lemma_between("Cost: "@, price, " | Tokens: "@);
    let behind = went_in + "in / "@ + came_out + "out"@;
    assert(told =~= front + behind);
    lemma_in_front(price, front, behind);
    let rest = " / "@ + came_out + "out"@;
    assert(told =~= front + (went_in + "in"@) + rest);
    lemma_between(front, went_in + "in"@, rest);
    let before = front + went_in + "in / "@;
    assert(told =~= before + (came_out + "out"@));
    lemma_at_end(before, came_out + "out"@);
}

/// The summary of the cost tells the amount where one is known and that there is none
/// otherwise, and how many tokens went in and out; tokens from the cache are told where there
/// were any.
pub proof fn law_cost_told(tracker: CostTracker, amount: Seq<char>)
    ensures
        ({
            let told = summary(tracker, amount);
            &&& shown(tracker) is Some ==> occurs("$"@ + amount, told)
            &&& shown(tracker) is None ==> occurs("unavailable"@, told)
            &&& occurs(decimal(tracker.input_tokens as nat) + "in"@, told)
            &&& occurs(decimal(tracker.output_tokens as nat) + "out"@, told)
            &&& tracker.cache_read_tokens > 0 ==> occurs(
                decimal(tracker.cache_read_tokens as nat) + "cache"@,
                told,
            )
        }),
{
    let price = cost_text(tracker, amount);
    let went_in = decimal(tracker.input_tokens as nat);
    let came_out = decimal(tracker.output_tokens as nat);
    let plain = "Cost: "@ + price + " | Tokens: "@ + went_in + "in / "@ + came_out + "out"@;
    lemma_tokens_told(price, went_in, came_out);
    if tracker.cache_read_tokens > 0 {
        let cached = decimal(tracker.cache_read_tokens as nat);
        let more = " / "@ + cached + "cache"@;
        assert(summary(tracker, amount) =~= plain + more);
        lemma_in_front(price, plain, more);
        lemma_in_front(went_in + "in"@, plain, more);
        lemma_in_front(came_out + "out"@, plain, more);
        assert(summary(tracker, amount) =~= plain + " / "@ + (cached + "cache"@));
        lemma_at_end(plain + " / "@, cached + "cache"@);
    }
}

/// An amount is known where the provider reported one or the model has a price, and it is the
/// whole amount, unless that is beyond what can be counted; a small amount is shown with more
/// digits.
pub proof fn law_cost_known(tracker: CostTracker)
    ensures
        shown(tracker) is Some <==> tracker.reported is Some || tracker.pricing is Some,
        shown(tracker) matches Some((amount, digits)) ==> {
            &&& tracker.total() <= u128::MAX ==> amount == tracker.total()
            &&& amount <= tracker.total()
            &&& digits == 4 || (digits == 8 && 0 < amount < 100000000)
            &&& 0 < amount < 100000000 ==> digits == 8
        },
{
}

} // verus!
