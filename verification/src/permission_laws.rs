//! What a permission check shows and remembers, and what becomes of the tool calls of a batch.

use vstd::prelude::*;
use crate::batch::{at_once, BatchView, ToolStepView};
use crate::json::JsonView;
use crate::permissions::{
    mode_name, mode_named, shown, CheckerView, PermissionMode, ResponseView, ResultView,
};
use crate::query::{
    lets_run, permissions_after, OutputView, ToolCallView, INTERRUPTED_BY_USER,
    SKIPPED_FOR_STEERING,
};
use crate::text::{byte_len, occurs};
use crate::text_laws::{lemma_at_end, lemma_between};

verus! {

/// What the user has always allowed is a tool by its name, or a shell command, letter for
/// letter, of the shell tool alone.
pub proof fn law_remembered(checker: CheckerView, name: Seq<char>, input: JsonView)
    ensures
        name != "Bash"@ ==> (checker.remembered(name, input) <==> checker.tools.contains(name)),
        name == "Bash"@ ==> (checker.remembered(name, input) <==> checker.tools.contains(name) || (
        input.at("command"@) is Text && checker.commands.contains(
            input.at("command"@)->Text_0,
        ))),
        checker.remembered(name, input) ==> forall|read_only: bool| #[trigger]
            checker.verdict(name, input, read_only) is Allow,
{
}

/// What an invocation is about, for the tools that are asked about in default mode: the file,
/// the pattern, the address or the command, as far as it is shown.
pub open spec fn subject_of(name: Seq<char>, input: JsonView) -> Option<Seq<char>> {
    let field = if name == "Grep"@ {
        input.at("pattern"@)
    } else if name == "WebFetch"@ {
        input.at("url"@)
    } else if name == "Bash"@ {
        input.at("command"@)
    } else {
        input.at("file_path"@)
    };
    match field.text() {
        Some(text) => if name == "Bash"@ {
            Some(shown(text))
        } else {
            Some(text)
        },
        None => None,
    }
}

proof fn lemma_tool_names()
    ensures
        "Read"@.len() == 4,
        "Read"@[0] == 'R',
        "Grep"@.len() == 4,
        "Grep"@[0] == 'G',
        "Bash"@.len() == 4,
        "Bash"@[0] == 'B',
        "Edit"@.len() == 4,
        "Edit"@[0] == 'E',
        "Write"@.len() == 5,
        "WebFetch"@.len() == 8,
{
    reveal_strlit("Read");
    reveal_strlit("Grep");
    reveal_strlit("Bash");
    reveal_strlit("Edit");
    reveal_strlit("Write");
    reveal_strlit("WebFetch");
}

/// In default mode, reading a file, searching and fetching are asked about, and other tools
/// that only read are allowed; every tool that writes is asked about. The question about one
/// of the tools that are known shows what the invocation is about, and the question about an
/// edit shows the change, where there is one.
pub proof fn law_default_questions(
    checker: CheckerView,
    name: Seq<char>,
    input: JsonView,
    read_only: bool,
)
    requires
        checker.mode == PermissionMode::Default,
        !checker.remembered(name, input),
    ensures
        ({
            let verdict = checker.verdict(name, input, read_only);
            let asked_reads = name == "Read"@ || name == "Grep"@ || name == "WebFetch"@;
            let asked_writes = name == "Bash"@ || name == "Write"@ || name == "Edit"@;
            &&& verdict is Ask <==> !read_only || asked_reads
            &&& verdict is Allow <==> read_only && !asked_reads
            &&& verdict matches ResultView::Ask { message, diff } ==> {
                &&& (if read_only {
                    asked_reads
                } else {
                    asked_writes
                }) && subject_of(name, input) is Some ==> occurs(
                    subject_of(name, input)->Some_0,
                    message,
                )
                &&& !read_only && !asked_writes ==> message == name
                &&& diff is Some <==> !read_only && name == "Edit"@ && input.at(
                    "old_string"@,
                ) is Text && input.at("old_string"@)->Text_0.len() > 0 && input.at(
                    "new_string"@,
                ) is Text && input.at("new_string"@)->Text_0.len() > 0
            }
        }),
{
    lemma_tool_names();
    let verdict = checker.verdict(name, input, read_only);
    if let ResultView::Ask { message, diff } = verdict {
        if let Some(subject) = subject_of(name, input) {
            if read_only {
                if name == "Read"@ {
                    lemma_at_end("read: "@, subject);
                } else if name == "Grep"@ {
                    let start = "grep: \""@;
                    let end = message.skip((start.len() + subject.len()) as int);
                    assert(message =~= start + subject + end);
                    lemma_between(start, subject, end);
                } else {
                    lemma_at_end("fetch: "@, subject);
                }
            } else if name == "Bash"@ {
                lemma_at_end("bash: "@, subject);
            } else if name == "Write"@ {
                lemma_at_end("write: "@, subject);
            } else if name == "Edit"@ {
                lemma_at_end("edit: "@, subject);
            }
        }
    }
}

/// In accept-edits mode the question about a shell command shows it.
pub proof fn law_edit_mode_question(checker: CheckerView, input: JsonView)
    requires
        checker.mode == PermissionMode::AcceptEdits,
        !checker.remembered("Bash"@, input),
        input.at("command"@) is Text,
    ensures
        checker.verdict("Bash"@, input, false) matches ResultView::Ask { message, diff } && occurs(
            shown(input.at("command"@)->Text_0),
            message,
        ),
{
    lemma_between("Allow bash: "@, shown(input.at("command"@)->Text_0), "?"@);
}

/// A command that is short is shown whole.
pub proof fn law_short_command_shown(command: Seq<char>)
    requires
        byte_len(command) <= 80,
    ensures
        shown(command) == command,
{
}

/// What the user's answer about an invocation leads to. It runs if the user allows it, once or
/// always, and not if the user denies it or gives no answer. "Always" holds from then on: the
/// same invocation is allowed, whatever the mode; and nothing but "always" is remembered.
pub proof fn law_answers(
    checker: CheckerView,
    name: Seq<char>,
    input: JsonView,
    answer: Option<ResponseView>,
    read_only: bool,
)
    ensures
        ({
            let after = permissions_after(checker, name, input, answer);
            let always = answer matches Some(a) && (a is AlwaysAllow || a is AlwaysAllowCommand);
            &&& lets_run(answer) <==> always || answer == Some(ResponseView::Allow)
            &&& after.mode == checker.mode
            &&& !always ==> after == checker
            &&& answer == Some(ResponseView::AlwaysAllow) ==> {
                &&& after.verdict(name, input, read_only) is Allow
                &&& name == "Bash"@ && input.at("command"@) is Text ==> after.tools
                    == checker.tools && after.commands == checker.commands.insert(
                    input.at("command"@)->Text_0,
                )
                &&& !(name == "Bash"@ && input.at("command"@) is Text) ==> after.commands
                    == checker.commands && after.tools == checker.tools.insert(name)
            }
            &&& answer matches Some(ResponseView::AlwaysAllowCommand(command)) ==> after.tools
                == checker.tools && after.commands == checker.commands.insert(command)
        }),
{
}

/// What is done about a call of a batch. A call that has its output keeps it. Else
/// cancellation interrupts it, and the batch; a message of the user supersedes it; and the
/// permission check decides: what it allows runs, what it denies gets the reason, and what it
/// asks about is asked, where there is a user to ask. Whatever does not run gets an output
/// that is an error; no other call changes.
pub proof fn law_call_decided(
    batch: BatchView,
    i: int,
    checker: CheckerView,
    read_only: bool,
    cancelled: bool,
    steering_pending: bool,
)
    requires
        batch.wf(),
        0 <= i < batch.calls.len(),
        batch.outputs[i] is None,
    ensures
        ({
            let (after, step) = batch.decided(i, checker, read_only, cancelled, steering_pending);
            let verdict = checker.verdict(batch.calls[i].name, batch.calls[i].input, read_only);
            let output = after.outputs[i]->Some_0;
            let up = !cancelled && !steering_pending;
            &&& after.calls == batch.calls
            &&& after.interactive == batch.interactive
            &&& after.outputs.len() == batch.outputs.len()
            &&& forall|k: int|
                0 <= k < batch.outputs.len() && k != i ==> (#[trigger] after.outputs[k])
                    == batch.outputs[k]
            &&& after.interrupted <==> batch.interrupted || cancelled
            &&& step is Run <==> up && verdict is Allow
            &&& step is Ask <==> up && verdict is Ask && batch.interactive
            &&& step matches ToolStepView::Ask { message, diff } ==> verdict == (ResultView::Ask {
                message,
                diff,
            })
            &&& step is Settled <==> after.outputs[i] is Some
            &&& step is Settled ==> output.is_error
            &&& cancelled ==> output.content == INTERRUPTED_BY_USER@
            &&& !cancelled && steering_pending ==> output.content == SKIPPED_FOR_STEERING@
            &&& up && verdict is Deny ==> verdict->Deny_0.is_suffix_of(output.content)
            &&& up && verdict is Ask && !batch.interactive ==> occurs(
                verdict->message,
                output.content,
            )
        }),
{
    let verdict = checker.verdict(batch.calls[i].name, batch.calls[i].input, read_only);
    match verdict {
        ResultView::Deny(reason) => {
            let said = "Permission denied: "@ + reason;
            assert(said.subrange(said.len() - reason.len(), said.len() as int) =~= reason);
        },
        ResultView::Ask { message, diff } => {
            lemma_between(
                "Permission denied: "@,
                message,
                " (one-shot mode has no prompt; set permission_mode in config.toml to allow)"@,
            );
        },
        _ => {},
    }
}

/// The calls that run at once are exactly those that only read and are allowed without a
/// question, each once, in order.
pub proof fn law_at_once(
    calls: Seq<ToolCallView>,
    checker: CheckerView,
    read_only: Seq<bool>,
    n: int,
)
    requires
        0 <= n <= calls.len(),
        read_only.len() == calls.len(),
    ensures
        ({
            let places = at_once(calls, checker, read_only, n);
            &&& forall|a: int, b: int|
                0 <= a < b < places.len() ==> (#[trigger] places[a]) < (#[trigger] places[b])
            &&& forall|i: int|
                #![trigger places.contains(i)]
                places.contains(i) <==> 0 <= i < n && read_only[i] && checker.verdict(
                    calls[i].name,
                    calls[i].input,
                    true,
                ) is Allow
        }),
    decreases n,
{
    let places = at_once(calls, checker, read_only, n);
    if n > 0 {
        law_at_once(calls, checker, read_only, n - 1);
        let before = at_once(calls, checker, read_only, n - 1);
        assert forall|a: int| 0 <= a < before.len() implies (#[trigger] before[a]) < n - 1 by {
            assert(before.contains(before[a]));
        }
        assert forall|i: int| #![trigger places.contains(i)] places.contains(i) <==> 0 <= i < n
            && read_only[i] && checker.verdict(calls[i].name, calls[i].input, true) is Allow by {
            assert(before.contains(i) <==> 0 <= i < n - 1 && read_only[i] && checker.verdict(
                calls[i].name,
                calls[i].input,
                true,
            ) is Allow);
            if places.contains(i) {
                let k = choose|k: int| 0 <= k < places.len() && places[k] == i;
                if k < before.len() {
                    assert(before[k] == i);
                    assert(before.contains(i));
                }
            }
            if before.contains(i) {
                let k = choose|k: int| 0 <= k < before.len() && before[k] == i;
                assert(places[k] == i);
            }
            if places.len() > before.len() {
                assert(places[before.len() as int] == n - 1);
            }
        }
    }
}

/// Every mode has a name of its own, and a mode is found under its name only.
pub proof fn law_mode_names(mode: PermissionMode, name: Seq<char>)
    ensures
        mode_named(mode_name(mode)) == Some(mode),
        mode_named(name) matches Some(found) ==> mode_name(found) == name,
{
    reveal_strlit("default");
    reveal_strlit("accept-edits");
    reveal_strlit("bypass");
    reveal_strlit("plan");
    assert("default"@.len() == 7);
    assert("accept-edits"@.len() == 12);
    assert("bypass"@.len() == 6);
    assert("plan"@.len() == 4);
}

/// A batch that begins has no result yet and is not interrupted; a result that comes in is that
/// of its own call, and changes nothing else.
pub proof fn law_batch_results(
    calls: Seq<ToolCallView>,
    interactive: bool,
    batch: BatchView,
    i: int,
    output: OutputView,
)
    requires
        batch.wf(),
        0 <= i < batch.calls.len(),
    ensures
        ({
            let fresh = BatchView::fresh(calls, interactive);
            &&& fresh.wf()
            &&& fresh.calls == calls
            &&& fresh.interactive == interactive
            &&& !fresh.interrupted
            &&& forall|k: int| 0 <= k < calls.len() ==> (#[trigger] fresh.outputs[k]) is None
        }),
        ({
            let after = batch.with_output(i, output);
            &&& after.wf()
            &&& after.outputs[i] == Some(output)
            &&& forall|k: int|
                0 <= k < batch.calls.len() && k != i ==> #[trigger] after.outputs[k]
                    == batch.outputs[k]
            &&& after == (BatchView { outputs: after.outputs, ..batch })
        }),
{
}

} // verus!
