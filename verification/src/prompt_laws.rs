//! What the system prompt tells a model.

use vstd::prelude::*;
use crate::context::{
    default_branch, environment_section, first_lines, found_parts, git_parts, instruction_places,
    instructions, places_above, places_in, project_instructions, project_map, runtime_section,
    runtime_sections, shown_status, Environment, GitFacts, PlaceView,
};
use crate::defaults::DefaultsView;
use crate::paths::components;
use crate::text::{
    byte_len, cut, decimal, is_blank, joined, line_texts, occurs, trimmed,
};
use crate::text_laws::{
    law_joined, lemma_at_end, lemma_between, lemma_in_front, lemma_occurs_in,
};

verus! {

/// The instructions tell the model its name, where its memory is, and the name of the file
/// with instructions of a project.
pub proof fn law_instructions_tell(
    model: Seq<char>,
    memory_dir: Seq<char>,
    instruction_file: Seq<char>,
)
    ensures
        occurs(model, instructions(model, memory_dir, instruction_file)),
        occurs(memory_dir, instructions(model, memory_dir, instruction_file)),
        occurs(instruction_file, instructions(model, memory_dir, instruction_file)),
{
    let whole = instructions(model, memory_dir, instruction_file);
    let a = crate::context::PROMPT_START@;
    let b = crate::context::PROMPT_BODY@;
    let c = crate::context::PROMPT_MEMORY@;
    let d = crate::context::PROMPT_END@;
    lemma_between(a, model, b + memory_dir + c + instruction_file + d);
    assert(whole =~= a + model + (b + memory_dir + c + instruction_file + d));
    lemma_between(a + model + b, memory_dir, c + instruction_file + d);
    assert(whole =~= a + model + b + memory_dir + (c + instruction_file + d));
    lemma_between(a + model + b + memory_dir + c, instruction_file, d);
}

proof fn lemma_section(e: Environment, model: Seq<char>, i: int, text: Seq<char>)
    requires
        0 <= i < runtime_sections(e, model).len(),
        occurs(text, runtime_sections(e, model)[i]),
    ensures
        occurs(text, runtime_section(e, model)),
{
    law_joined(runtime_sections(e, model), "\n"@, i);
    lemma_occurs_in(text, runtime_sections(e, model)[i], runtime_section(e, model));
}

/// What is known of the environment is in the system prompt: the working directory, the
/// platform and the model; the state of the repository where there is one; the instructions
/// of the project; the beginning of the memory index; and what plugins gave.
pub proof fn law_environment_told(e: Environment, model: Seq<char>)
    ensures
        ({
            let told = runtime_section(e, model);
            &&& occurs(e.cwd@, told)
            &&& occurs(e.platform@, told)
            &&& occurs(model, told)
            &&& e.is_git && e.git_status is Some ==> occurs(e.git_status->Some_0@, told)
            &&& e.instructions is Some ==> occurs(e.instructions->Some_0@, told)
            &&& e.memory_index is Some && !is_blank(e.memory_index->Some_0@) ==> occurs(
                first_lines(e.memory_index->Some_0@, 200),
                told,
            )
            &&& e.plugin_context is Some && e.plugin_context->Some_0@.len() > 0 ==> occurs(
                e.plugin_context->Some_0@,
                told,
            )
        }),
{
    let sections = runtime_sections(e, model);
    let first = environment_section(e, model);
    lemma_environment(e, model);
    assert(sections[0] == first);
    lemma_section(e, model, 0, e.cwd@);
    lemma_section(e, model, 0, e.platform@);
    lemma_section(e, model, 0, model);
    let git: int = if e.is_git && e.git_status is Some {
        1
    } else {
        0
    };
    let own: int = if e.instructions is Some {
        1
    } else {
        0
    };
    let memory: int = if e.memory_index is Some && !is_blank(e.memory_index->Some_0@) {
        1
    } else {
        0
    };
    if git == 1 {
        let status = e.git_status->Some_0@;
        assert(sections[1] == "\ngitStatus: "@ + status);
        lemma_at_end("\ngitStatus: "@, status);
        lemma_section(e, model, 1, status);
    }
    if own == 1 {
        let content = e.instructions->Some_0@;
        assert(sections[1 + git] == "\n"@ + content);
        lemma_at_end("\n"@, content);
        lemma_section(e, model, 1 + git, content);
    }
    if memory == 1 {
        let index = first_lines(e.memory_index->Some_0@, 200);
        assert(sections[1 + git + own] == "\n# Memory Index (MEMORY.md)\n"@ + index);
        lemma_at_end("\n# Memory Index (MEMORY.md)\n"@, index);
        lemma_section(e, model, 1 + git + own, index);
    }
    if e.plugin_context is Some && e.plugin_context->Some_0@.len() > 0 {
        let given = e.plugin_context->Some_0@;
        assert(sections[1 + git + own + memory] == "\n# Plugin Context\n"@ + given);
        lemma_at_end("\n# Plugin Context\n"@, given);
        lemma_section(e, model, 1 + git + own + memory, given);
    }
}

proof fn lemma_environment(e: Environment, model: Seq<char>)
    ensures
        occurs(e.cwd@, environment_section(e, model)),
        occurs(e.platform@, environment_section(e, model)),
        occurs(model, environment_section(e, model)),
{
    let whole = environment_section(e, model);
    let a = "# Environment\nYou have been invoked in the following environment: \n - Primary working directory: "@;
    let b = "\n - Is a git repository: "@ + (if e.is_git {
        "true"@
    } else {
        "false"@
    }) + "\n - Platform: "@;
    let c = whole.skip((a.len() + e.cwd@.len() + b.len() + e.platform@.len()) as int);
    assert(whole =~= a + e.cwd@ + (b + e.platform@ + c));
    lemma_between(a, e.cwd@, b + e.platform@ + c);
    assert(whole =~= (a + e.cwd@ + b) + e.platform@ + c);
    lemma_between(a + e.cwd@ + b, e.platform@, c);
    let end = "."@;
    let start = whole.take(whole.len() - model.len() - end.len());
    assert(whole =~= start + model + end);
    lemma_between(start, model, end);
}

proof fn lemma_found(places: Seq<PlaceView>, contents: Seq<Option<String>>, i: int)
    requires
        places.len() == contents.len(),
        0 <= i < places.len(),
        contents[i] is Some,
    ensures
        exists|k: int|
            0 <= k < found_parts(places, contents).len() && occurs(
                contents[i]->Some_0@,
                #[trigger] found_parts(places, contents)[k],
            ),
    decreases places.len(),
{
    let parts = found_parts(places, contents);
    let before = found_parts(places.drop_last(), contents.drop_last());
    let content = contents[i]->Some_0@;
    if i < places.len() - 1 {
        assert(contents.drop_last()[i] == contents[i]);
        lemma_found(places.drop_last(), contents.drop_last(), i);
        let k = choose|k: int| 0 <= k < before.len() && occurs(content, #[trigger] before[k]);
        assert(parts[k] == before[k]);
    } else {
        let place = places.last();
        let heading = "# "@ + place.name + " ("@ + place.directory + ")\n"@;
        lemma_at_end(heading, content);
        assert(parts[parts.len() - 1] == heading + content);
    }
}

proof fn lemma_nothing_found(places: Seq<PlaceView>, contents: Seq<Option<String>>)
    requires
        places.len() == contents.len(),
        forall|i: int| 0 <= i < contents.len() ==> (#[trigger] contents[i]) is None,
    ensures
        found_parts(places, contents).len() == 0,
    decreases places.len(),
{
    if places.len() > 0 {
        let init = contents.drop_last();
        assert forall|i: int| 0 <= i < init.len() implies (#[trigger] init[i]) is None by {
            assert(init[i] == contents[i]);
        }
        lemma_nothing_found(places.drop_last(), init);
        assert(contents[contents.len() - 1] is None);
    }
}

/// Everything that was read in one of the places for instructions is among the instructions,
/// and so are those of the user; there are none only where nothing was read.
pub proof fn law_instructions_found(
    places: Seq<PlaceView>,
    contents: Seq<Option<String>>,
    global: Option<Seq<char>>,
    d: DefaultsView,
)
    requires
        places.len() == contents.len(),
    ensures
        ({
            let told = project_instructions(places, contents, global, d);
            &&& told is None <==> global is None && forall|i: int|
                0 <= i < contents.len() ==> (#[trigger] contents[i]) is None
            &&& forall|i: int|
                0 <= i < contents.len() && (#[trigger] contents[i]) is Some ==> occurs(
                    contents[i]->Some_0@,
                    told->Some_0,
                )
            &&& global is Some ==> occurs(global->Some_0, told->Some_0)
        }),
{
    let told = project_instructions(places, contents, global, d);
    let found = found_parts(places, contents);
    let heading = "# ~/"@ + crate::context::nested_file(d) + "\n"@;
    let parts = match global {
        Some(content) => found.push(heading + content),
        None => found,
    };
    assert forall|i: int| 0 <= i < contents.len() && (#[trigger] contents[i]) is Some implies
        told is Some && occurs(contents[i]->Some_0@, told->Some_0) by {
        lemma_found(places, contents, i);
        let k = choose|k: int|
            0 <= k < found.len() && occurs(contents[i]->Some_0@, #[trigger] found[k]);
        assert(parts[k] == found[k]);
        law_joined(parts, "\n\n"@, k);
        lemma_occurs_in(contents[i]->Some_0@, parts[k], told->Some_0);
    }
    if let Some(content) = global {
        lemma_at_end(heading, content);
        law_joined(parts, "\n\n"@, parts.len() - 1);
        lemma_occurs_in(content, parts.last(), told->Some_0);
    } else if forall|i: int| 0 <= i < contents.len() ==> (#[trigger] contents[i]) is None {
        lemma_nothing_found(places, contents);
    }
}

proof fn lemma_places_above(path: Seq<char>, n: int, d: DefaultsView)
    requires
        n >= 0,
    ensures
        places_above(path, n, d).len() == 2 * n,
        forall|i: int|
            0 <= i < n ==> {
                &&& (#[trigger] places_above(path, n, d)[2 * i]).directory
                    == crate::context::ancestor(path, n - 1 - i)
                &&& places_above(path, n, d)[2 * i].name == d.instruction_file
                &&& places_above(path, n, d)[2 * i + 1].directory == crate::context::ancestor(
                    path,
                    n - 1 - i,
                )
            },
    decreases n,
{
    if n > 0 {
        lemma_places_above(path, n - 1, d);
        let all = places_above(path, n, d);
        let rest = places_above(path, n - 1, d);
        assert(all == places_in(crate::context::ancestor(path, n - 1), d) + rest);
        assert forall|i: int| 0 <= i < n implies {
            &&& (#[trigger] all[2 * i]).directory == crate::context::ancestor(path, n - 1 - i)
            &&& all[2 * i].name == d.instruction_file
            &&& all[2 * i + 1].directory == crate::context::ancestor(path, n - 1 - i)
        } by {
            if i > 0 {
                assert(all[2 * i] == rest[2 * (i - 1)]);
                assert(all[2 * i + 1] == rest[2 * (i - 1) + 1]);
            }
        }
    }
}

/// Instructions are looked for in the working directory first, and behind it in every directory
/// above it, from the nearest to the root, in two places each.
pub proof fn law_instruction_places(cwd: Seq<char>, d: DefaultsView)
    ensures
        ({
            let places = instruction_places(cwd, d);
            let n = components(cwd).len() as int;
            &&& places.len() == 2 * n + 2
            &&& places[0].directory == cwd && places[0].name == d.instruction_file
            &&& places[1].directory == cwd
            &&& forall|i: int|
                0 <= i < n ==> {
                    &&& (#[trigger] places[2 * i + 2]).directory == crate::context::ancestor(
                        cwd,
                        n - 1 - i,
                    )
                    &&& places[2 * i + 2].name == d.instruction_file
                    &&& places[2 * i + 3].directory == crate::context::ancestor(cwd, n - 1 - i)
                }
        }),
{
    let places = instruction_places(cwd, d);
    let n = components(cwd).len() as int;
    let above = places_above(cwd, n, d);
    lemma_places_above(cwd, n, d);
    assert forall|i: int| 0 <= i < n implies {
        &&& (#[trigger] places[2 * i + 2]).directory == crate::context::ancestor(cwd, n - 1 - i)
        &&& places[2 * i + 2].name == d.instruction_file
        &&& places[2 * i + 3].directory == crate::context::ancestor(cwd, n - 1 - i)
    } by {
        assert(places[2 * i + 2] == above[2 * i]);
        assert(places[2 * i + 3] == above[2 * i + 1]);
    }
}

proof fn lemma_part(parts: Seq<Seq<char>>, i: int, text: Seq<char>)
    requires
        0 <= i < parts.len(),
        occurs(text, parts[i]),
    ensures
        occurs(text, joined(parts, "\n\n"@)),
{
    law_joined(parts, "\n\n"@, i);
    lemma_occurs_in(text, parts[i], joined(parts, "\n\n"@));
}

/// What is known of the repository is told: its branch, the branch that is merged into, who the
/// user is, its state and its latest commits. A long state is told in part, and a clean one as
/// such.
pub proof fn law_repository_told(f: GitFacts)
    ensures
        ({
            let told = joined(git_parts(f), "\n\n"@);
            &&& occurs(trimmed(f.branch@), told)
            &&& occurs(default_branch(f), told)
            &&& f.user_name is Some && !is_blank(f.user_name->Some_0@) ==> occurs(
                trimmed(f.user_name->Some_0@),
                told,
            )
            &&& f.log is Some ==> occurs(f.log->Some_0@, told)
            &&& f.status is Some && !is_blank(f.status->Some_0@) && byte_len(f.status->Some_0@)
                <= 2000 ==> occurs(f.status->Some_0@, told)
            &&& f.status is Some && byte_len(f.status->Some_0@) > 2000 ==> occurs(
                cut(f.status->Some_0@, 2000),
                told,
            )
            &&& f.status is Some && is_blank(f.status->Some_0@) && byte_len(f.status->Some_0@)
                <= 2000 ==> occurs("(clean)"@, told)
        }),
{
    let parts = git_parts(f);
    let branch = "Current branch: "@;
    let merged = "Main branch (you will usually use this for PRs): "@;
    assert(parts[1] == branch + trimmed(f.branch@));
    assert(parts[2] == merged + default_branch(f));
    lemma_at_end(branch, trimmed(f.branch@));
    lemma_part(parts, 1, trimmed(f.branch@));
    lemma_at_end(merged, default_branch(f));
    lemma_part(parts, 2, default_branch(f));
    let n = parts.len() as int;
    if f.user_name is Some && !is_blank(f.user_name->Some_0@) {
        let name = trimmed(f.user_name->Some_0@);
        assert(parts[3] == "Git user: "@ + name);
        lemma_at_end("Git user: "@, name);
        lemma_part(parts, 3, name);
    }
    if let Some(log) = f.log {
        assert(parts[n - 1] == "Recent commits:\n"@ + log@);
        lemma_at_end("Recent commits:\n"@, log@);
        lemma_part(parts, n - 1, log@);
    }
    if let Some(status) = f.status {
        let shown = shown_status(status@);
        assert(parts[n - 2] == "Status:\n"@ + shown);
        lemma_at_end("Status:\n"@, shown);
        lemma_part(parts, n - 2, shown);
        if byte_len(status@) > 2000 {
            let more =
                "... (truncated because it exceeds 2k characters. If you need more information, run \"git status\" using Bash)"@;
            lemma_between(Seq::empty(), cut(status@, 2000), more);
            assert(Seq::<char>::empty() + cut(status@, 2000) + more =~= shown);
            lemma_occurs_in(cut(status@, 2000), shown, joined(parts, "\n\n"@));
        }
    }
}

/// The branch that is merged into is the one that the head of the remote points to; without
/// that it is the usual one, and the older name only where there is no newer.
pub proof fn law_branch_of_remote(f: GitFacts, name: Seq<char>)
    requires
        name.len() > 0,
    ensures
        f.remote_head is Some && trimmed(f.remote_head->Some_0@) == "refs/remotes/origin/"@ + name
            ==> default_branch(f) == name,
        f.remote_head is None ==> default_branch(f) == if f.has_master && !f.has_main {
            "master"@
        } else {
            "main"@
        },
{
    let prefix = "refs/remotes/origin/"@;
    assert((prefix + name).subrange(0, prefix.len() as int) =~= prefix);
    assert((prefix + name).skip(prefix.len() as int) =~= name);
}

proof fn lemma_files_told(count: nat, listed: Seq<char>)
    ensures
        ({
            let told = "\n**File Structure** ("@ + decimal(count) + " files):\n"@ + listed;
            occurs(decimal(count), told) && occurs(listed, told)
        }),
{
    let a = "\n**File Structure** ("@;
    let b = " files):\n"@;
    let told = a + decimal(count) + b + listed;
    lemma_between(a, decimal(count), b + listed);
    assert(told =~= a + decimal(count) + (b + listed));
    lemma_at_end(a + decimal(count) + b, listed);
}

/// The map of a project tells its language, how many files it has, and all of them unless they
/// are too many; symbols are told where there are any.
pub proof fn law_project_mapped(kind: Seq<char>, files: Seq<char>, symbols: Seq<char>)
    ensures
        ({
            let told = project_map(kind, files, Some(symbols));
            let count = line_texts(files).len();
            &&& occurs(kind, told)
            &&& occurs(decimal(count), told)
            &&& count <= 100 ==> occurs(files, told)
            &&& count > 100 ==> occurs(first_lines(files, 100), told)
            &&& !is_blank(symbols) && line_texts(symbols).len() <= 50 ==> occurs(symbols, told)
            &&& !is_blank(symbols) && line_texts(symbols).len() > 50 ==> occurs(
                first_lines(symbols, 50),
                told,
            )
            &&& is_blank(symbols) ==> told == project_map(kind, files, None)
        }),
{
    let told = project_map(kind, files, Some(symbols));
    let count = line_texts(files).len();
    let top = first_lines(files, 100);
    let listed = if count > 100 {
        top + "... ("@ + decimal(count) + " total files, showing top 100)"@
    } else {
        files
    };
    let first = "**Project Type:** "@ + kind;
    let second = "\n**File Structure** ("@ + decimal(count) + " files):\n"@ + listed;
    let start = seq![first, second];
    let shown = if line_texts(symbols).len() > 50 {
        first_lines(symbols, 50) + "... (truncated)"@
    } else {
        symbols
    };
    let third = "\n**Top-Level Symbols**:\n"@ + shown;
    let parts = if is_blank(symbols) {
        start
    } else {
        start.push(third)
    };
    assert(told == joined(parts, "\n"@));
    assert(parts[0] == first && parts[1] == second);
    assert(occurs(kind, told)) by {
        law_joined(parts, "\n"@, 0);
        lemma_at_end("**Project Type:** "@, kind);
        lemma_occurs_in(kind, first, told);
    }
    assert(occurs(decimal(count), told) && occurs(listed, told)) by {
        law_joined(parts, "\n"@, 1);
        lemma_files_told(count, listed);
        lemma_occurs_in(decimal(count), second, told);
        lemma_occurs_in(listed, second, told);
    }
    if count > 100 {
        assert(occurs(top, told)) by {
            lemma_at_end(Seq::empty(), top);
            assert(Seq::<char>::empty() + top =~= top);
            lemma_in_front(top, top, "... ("@);
            lemma_in_front(top, top + "... ("@, decimal(count));
            lemma_in_front(
                top,
                top + "... ("@ + decimal(count),
                " total files, showing top 100)"@,
            );
            lemma_occurs_in(top, listed, told);
        }
    }
    if !is_blank(symbols) {
        assert(occurs(shown, told)) by {
            assert(parts[2] == third);
            law_joined(parts, "\n"@, 2);
            lemma_at_end("\n**Top-Level Symbols**:\n"@, shown);
            lemma_occurs_in(shown, third, told);
        }
        if line_texts(symbols).len() > 50 {
            let most = first_lines(symbols, 50);
            lemma_between(Seq::empty(), most, "... (truncated)"@);
            assert(Seq::<char>::empty() + most + "... (truncated)"@ =~= shown);
            lemma_occurs_in(most, shown, told);
        }
    }
}

} // verus!
