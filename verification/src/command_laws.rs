//! Which lines are commands, and what is done with their arguments.

use vstd::prelude::*;
use crate::commands::{
    canonical, command_table, dispatched, law_alias_resolves, law_listed_commands_are_known, parsed,
    session_line, session_lines, session_list, AsyncView, CommandView, SessionEntry, Surface,
};
use crate::text::{decimal, is_space, lemma_first_occurrence, occurs, occurs_at, trimmed};
use crate::text_laws::{lemma_at_end, lemma_between, lemma_in_front, lemma_occurs_in};

verus! {

/// A line is a command where it begins with a slash, whatever whitespace stands around it, and
/// only there; the whitespace makes no difference.
pub proof fn law_is_command(a: Seq<char>, b: Seq<char>, surface: Surface)
    ensures
        parsed(a, surface) is Some <==> trimmed(a).len() > 0 && trimmed(a)[0] == '/',
        trimmed(a) == trimmed(b) ==> parsed(a, surface) == parsed(b, surface),
{
    reveal_strlit("/");
    assert("/"@.len() == 1 && "/"@[0] == '/');
    if trimmed(a).len() > 0 && trimmed(a)[0] == '/' {
        assert(trimmed(a).subrange(0, 1) =~= "/"@);
    }
}

proof fn lemma_with_argument(name: Seq<char>, args: Seq<char>, surface: Surface)
    requires
        name.len() > 0,
        name[0] == '/',
        !name.contains(' '),
        args.len() > 0,
        !is_space(args[0]),
        !is_space(args.last()),
    ensures
        parsed(name + " "@ + args, surface) == Some(
            dispatched(canonical(command_table(), name), args, surface),
        ),
{
    reveal_strlit("/");
    reveal_strlit(" ");
    assert(" "@.len() == 1 && " "@[0] == ' ');
    let line = name + " "@ + args;
    assert(!is_space('/'));
    assert(line[0] == '/');
    assert(line.last() == args.last());
    assert(trimmed(line) =~= line);
    assert(line.subrange(0, 1) =~= "/"@);
    let n = name.len() as int;
    assert(line.subrange(n, n + 1) =~= " "@);
    assert(occurs_at(" "@, line, n));
    assert forall|j: int| 0 <= j < n implies !occurs_at(" "@, line, j) by {
        if occurs_at(" "@, line, j) {
            assert(line.subrange(j, j + 1)[0] == line[j]);
            assert(name[j] == ' ');
        }
    }
    lemma_first_occurrence(line, " "@, 0, n);
    assert(line.take(n) =~= name);
    assert(line.skip(n + 1) =~= args);
    assert(trimmed(args) =~= args);
}

/// What stands behind the name of a command is its argument, whole: the session to go on with,
/// the model to switch to, the theme, and the image to attach.
pub proof fn law_command_arguments(args: Seq<char>, surface: Surface)
    requires
        args.len() > 0,
        !is_space(args[0]),
        !is_space(args.last()),
    ensures
        parsed("/resume"@ + " "@ + args, surface) == Some(
            CommandView::Async(AsyncView::Resume(Some(args))),
        ),
        parsed("/model"@ + " "@ + args, surface) == Some(
            CommandView::Async(AsyncView::Model(Some(args))),
        ),
        parsed("/theme"@ + " "@ + args, surface) == Some(
            CommandView::Async(AsyncView::Theme(Some(args))),
        ),
        parsed("/image"@ + " "@ + args, surface) == Some(
            CommandView::Async(AsyncView::Image(args)),
        ),
        parsed("/quit"@ + " "@ + args, surface) == Some(CommandView::Exit),
{
    reveal_strlit("/help");
    reveal_strlit("/home");
    reveal_strlit("/exit");
    reveal_strlit("/clear");
    reveal_strlit("/compact");
    reveal_strlit("/context");
    reveal_strlit("/diff");
    reveal_strlit("/undo-turn");
    reveal_strlit("/image");
    reveal_strlit("/model");
    reveal_strlit("/theme");
    reveal_strlit("/resume");
    reveal_strlit("/cost");
    reveal_strlit("/quit");
    assert("/help"@.len() == 5);
    assert("/home"@.len() == 5);
    assert("/exit"@.len() == 5);
    assert("/clear"@.len() == 6);
    assert("/clear"@[1] == 'c');
    assert("/compact"@.len() == 8);
    assert("/context"@.len() == 8);
    assert("/diff"@.len() == 5);
    assert("/undo-turn"@.len() == 10);
    assert("/image"@.len() == 6);
    assert("/image"@[1] == 'i');
    assert("/model"@.len() == 6);
    assert("/model"@[1] == 'm');
    assert("/theme"@.len() == 6);
    assert("/theme"@[1] == 't');
    assert("/resume"@.len() == 7);
    assert("/quit"@.len() == 5);
    assert(command_table()[6].name == "/image"@);
    assert(command_table()[7].name == "/model"@);
    assert(command_table()[8].name == "/theme"@);
    assert(command_table()[9].name == "/resume"@);
    law_listed_commands_are_known(6, args, surface);
    law_listed_commands_are_known(7, args, surface);
    law_listed_commands_are_known(8, args, surface);
    law_listed_commands_are_known(9, args, surface);
    law_alias_resolves(args, surface);
    lemma_with_argument("/resume"@, args, surface);
    lemma_with_argument("/model"@, args, surface);
    lemma_with_argument("/theme"@, args, surface);
    lemma_with_argument("/image"@, args, surface);
    lemma_with_argument("/quit"@, args, surface);
}

proof fn lemma_line_listed(entries: Seq<SessionEntry>, i: int)
    requires
        0 <= i < entries.len(),
    ensures
        occurs(session_line(entries[i]), session_lines(entries)),
    decreases entries.len(),
{
    let init = entries.drop_last();
    let last = session_line(entries.last());
    if i < init.len() {
        lemma_line_listed(init, i);
        assert(init[i] == entries[i]);
        let line = session_line(entries[i]);
        lemma_in_front(line, session_lines(init), "\n"@);
        lemma_in_front(line, session_lines(init) + "\n"@, last);
    } else if entries.len() == 1 {
        lemma_at_end(session_lines(init), last);
    } else {
        lemma_at_end(session_lines(init) + "\n"@, last);
    }
}

/// The list of sessions shows each of the first ten with its id, its model, its number of
/// messages and its directory; one that cannot be read is listed all the same. The others make
/// no difference.
pub proof fn law_sessions_shown(entries: Seq<SessionEntry>, i: int)
    requires
        0 <= i < entries.len(),
        i < 10,
    ensures
        ({
            let told = session_list(entries);
            match entries[i].details {
                Some(d) => occurs(d.id@, told) && occurs(d.model@, told) && occurs(
                    decimal(d.messages as nat),
                    told,
                ) && occurs(d.cwd@, told),
                None => occurs(entries[i].id@, told),
            }
        }),
        entries.len() > 10 ==> session_list(entries) == session_list(entries.take(10)),
{
    let told = session_list(entries);
    let listed = crate::commands::first_ten(entries);
    let end = "\n\nUse /resume <id> to resume a session."@;
    assert(listed[i] == entries[i]);
    lemma_line_listed(listed, i);
    let line = session_line(entries[i]);
    lemma_in_front(line, session_lines(listed), end);
    let a = "  \x1b[33m"@;
    match entries[i].details {
        Some(d) => {
            let count = decimal(d.messages as nat);
            let b = "\x1b[0m  "@;
            let behind = b + d.model@ + "  "@ + count + " msgs  "@ + d.cwd@;
            assert(line =~= a + d.id@ + behind);
            lemma_between(a, d.id@, behind);
            lemma_occurs_in(d.id@, line, told);
            let front = a + d.id@ + b;
            let more = "  "@ + count + " msgs  "@ + d.cwd@;
            assert(line =~= front + d.model@ + more);
            lemma_between(front, d.model@, more);
            lemma_occurs_in(d.model@, line, told);
            let before = front + d.model@ + "  "@;
            let rest = " msgs  "@ + d.cwd@;
            assert(line =~= before + count + rest);
            lemma_between(before, count, rest);
            lemma_occurs_in(count, line, told);
            lemma_at_end(before + count + " msgs  "@, d.cwd@);
            lemma_occurs_in(d.cwd@, line, told);
        },
        None => {
            lemma_between(a, entries[i].id@, "\x1b[0m  (error reading)"@);
            lemma_occurs_in(entries[i].id@, line, told);
        },
    }
}

} // verus!
