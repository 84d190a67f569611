//! How the arguments of the program are told apart.

use vstd::prelude::*;
use crate::args::{
    first_value, has_value, is_value, long_option, told_apart, with_next_value, with_shorts,
    ArgErrorView, OptionView, ParsedView,
};
use crate::cli::{cli_of, command_line, top_options, values_of, CliView};
use crate::text::{lemma_first_occurrence, occurs_at, parts_around};

verus! {

proof fn lemma_long_option(options: Seq<OptionView>, i: int)
    requires
        0 <= i < options.len(),
        forall|j: int| 0 <= j < i ==> (#[trigger] options[j]).long != options[i].long,
    ensures
        long_option(options, options[i].long) == Some(options[i]),
    decreases i,
{
    if i > 0 {
        let rest = options.drop_first();
        assert(options[0].long != options[i].long);
        assert(rest[i - 1] == options[i]);
        assert forall|j: int| 0 <= j < i - 1 implies (#[trigger] rest[j]).long != rest[i
            - 1].long by {
            assert(rest[j] == options[j + 1]);
        }
        lemma_long_option(rest, i - 1);
    }
}

proof fn lemma_around_equals(name: Seq<char>, value: Seq<char>)
    requires
        !name.contains('='),
    ensures
        parts_around(name + "="@ + value, "="@) == Some((name, value)),
        parts_around(name, "="@) is None,
{
    reveal_strlit("=");
    let whole = name + "="@ + value;
    let n = name.len() as int;
    assert(whole.subrange(n, n + 1) =~= "="@);
    assert(occurs_at("="@, whole, n));
    assert forall|j: int| 0 <= j < n implies !occurs_at("="@, whole, j) by {
        if occurs_at("="@, whole, j) {
            assert(whole.subrange(j, j + 1)[0] == whole[j]);
            assert(name.contains(name[j]));
        }
    }
    lemma_first_occurrence(whole, "="@, 0, n);
    assert(whole.take(n) =~= name);
    assert(whole.skip(n + 1) =~= value);
    assert(crate::text::first_occurrence(name, "="@, 0) is None) by {
        lemma_no_equals(name, 0);
    }
}

proof fn lemma_no_equals(name: Seq<char>, from: int)
    requires
        !name.contains('='),
        from >= 0,
    ensures
        crate::text::first_occurrence(name, "="@, from) is None,
    decreases name.len() + 1 - from,
{
    reveal_strlit("=");
    if from + 1 <= name.len() {
        if occurs_at("="@, name, from) {
            assert(name.subrange(from, from + 1)[0] == name[from]);
            assert(name.contains(name[from]));
        }
        lemma_no_equals(name, from + 1);
    }
}

/// The value of an option can stand behind an equals sign or in the next argument, and it makes
/// no difference which; a value behind an equals sign may be anything. An option that is not
/// known is refused, and behind two dashes everything is a word.
pub proof fn law_value_forms(
    options: Seq<OptionView>,
    commands: bool,
    before: ParsedView,
    name: Seq<char>,
    value: Seq<char>,
    rest: Seq<Seq<char>>,
)
    requires
        name.len() > 0,
        !name.contains('='),
    ensures
        ({
            let written = told_apart(
                options,
                commands,
                before,
                seq!["--"@ + name + "="@ + value] + rest,
            );
            let apart = told_apart(options, commands, before, seq!["--"@ + name, value] + rest);
            match long_option(options, name) {
                None => {
                    &&& written is Err && apart is Err
                    &&& apart->Err_0 == ArgErrorView::Unexpected("--"@ + name)
                },
                Some(o) => o.takes_value ==> {
                    &&& is_value(value) ==> apart == written
                    &&& !is_value(value) ==> apart == Err::<ParsedView, ArgErrorView>(
                        ArgErrorView::MissingValue(o.long),
                    )
                    &&& written == match before.with_value(o, value) {
                        Ok(after) => told_apart(options, commands, after, rest),
                        Err(e) => Err(e),
                    }
                },
            }
        }),
        told_apart(options, commands, before, seq!["--"@] + rest) == Ok::<ParsedView, ArgErrorView>(
            ParsedView { words: before.words + rest, ..before },
        ),
{
    reveal_strlit("--");
    reveal_strlit("=");
    let dashes = "--"@;
    let one = dashes + name + "="@ + value;
    let two = dashes + name;
    assert(one.subrange(0, 2) =~= dashes);
    assert(two.subrange(0, 2) =~= dashes);
    assert(one.skip(2) =~= name + "="@ + value);
    assert(two.skip(2) =~= name);
    assert(one.len() > 2 && two.len() > 2);
    lemma_around_equals(name, value);
    let written = seq![one] + rest;
    let apart = seq![two, value] + rest;
    assert(written[0] == one);
    assert(written.drop_first() =~= rest);
    assert(apart[0] == two);
    let behind = apart.drop_first();
    assert(behind =~= seq![value] + rest);
    assert(behind[0] == value);
    assert(behind.drop_first() =~= rest);
    let words = seq![dashes] + rest;
    assert(words[0] == dashes);
    assert(words.drop_first() =~= rest);
    reveal_with_fuel(told_apart, 2);
    reveal_with_fuel(with_next_value, 2);
    assert(parts_around(one.skip(2), "="@) == Some((name, value)));
    assert(parts_around(two.skip(2), "="@) is None);
    if let Some(o) = long_option(options, name) {
        if o.takes_value {
            assert(told_apart(options, commands, before, apart) == with_next_value(
                options,
                commands,
                before,
                o,
                behind,
            ));
        }
    }
}

/// Whether everything that was read before is still there, in its order.
pub open spec fn keeps(before: ParsedView, after: ParsedView) -> bool {
    &&& before.flags.is_prefix_of(after.flags)
    &&& before.values.is_prefix_of(after.values)
    &&& before.words.is_prefix_of(after.words)
}

proof fn lemma_keeps(a: ParsedView, b: ParsedView, c: ParsedView)
    ensures
        keeps(a, a),
        keeps(a, b) && keeps(b, c) ==> keeps(a, c),
{
    assert(a.flags.subrange(0, a.flags.len() as int) =~= a.flags);
    assert(a.values.subrange(0, a.values.len() as int) =~= a.values);
    assert(a.words.subrange(0, a.words.len() as int) =~= a.words);
    if keeps(a, b) && keeps(b, c) {
        lemma_prefix(a.flags, b.flags, c.flags);
        lemma_prefix(a.values, b.values, c.values);
        lemma_prefix(a.words, b.words, c.words);
    }
}

proof fn lemma_prefix<T>(a: Seq<T>, b: Seq<T>, c: Seq<T>)
    requires
        a.is_prefix_of(b),
        b.is_prefix_of(c),
    ensures
        a.is_prefix_of(c),
{
    assert(c.subrange(0, a.len() as int) =~= b.subrange(0, a.len() as int));
}

proof fn lemma_option_kept(before: ParsedView, o: OptionView, value: Seq<char>)
    ensures
        before.with_flag(o) matches Ok(after) ==> keeps(before, after) && after.flags.contains(
            o.long,
        ),
        before.with_value(o, value) matches Ok(after) ==> keeps(before, after)
            && after.values.contains((o.long, value)),
{
    lemma_keeps(before, before, before);
    if let Ok(after) = before.with_flag(o) {
        assert(after.flags.subrange(0, before.flags.len() as int) =~= before.flags);
        assert(after.flags.last() == o.long);
    }
    if let Ok(after) = before.with_value(o, value) {
        assert(after.values.subrange(0, before.values.len() as int) =~= before.values);
        assert(after.values.last() == (o.long, value));
    }
}

proof fn lemma_shorts_kept(
    options: Seq<OptionView>,
    before: ParsedView,
    names: Seq<char>,
    arg: Seq<char>,
)
    ensures
        with_shorts(options, before, names, arg) matches Ok(r) ==> keeps(before, r.0),
    decreases names.len(),
{
    lemma_keeps(before, before, before);
    if names.len() > 0 {
        if let Some(o) = crate::args::short_option(options, names[0]) {
            lemma_option_kept(before, o, crate::args::without_equals(names.drop_first()));
            if let Ok(after) = before.with_flag(o) {
                lemma_shorts_kept(options, after, names.drop_first(), arg);
                if let Ok(r) = with_shorts(options, after, names.drop_first(), arg) {
                    lemma_keeps(before, after, r.0);
                }
            }
        }
    }
}

/// Nothing that was read is lost by what comes behind it: where the arguments are accepted, every
/// flag, every value and every word is still there, in order.
pub proof fn law_arguments_kept(
    options: Seq<OptionView>,
    commands: bool,
    before: ParsedView,
    args: Seq<Seq<char>>,
)
    ensures
        told_apart(options, commands, before, args) matches Ok(after) ==> keeps(before, after),
    decreases args.len(), 0nat,
{
    lemma_keeps(before, before, before);
    if args.len() > 0 {
        let arg = args[0];
        let rest = args.drop_first();
        if arg == "--"@ {
            let words = before.words + rest;
            assert(words.subrange(0, before.words.len() as int) =~= before.words);
        } else if "--"@.is_prefix_of(arg) {
            let body = arg.skip(2);
            let (name, given) = match parts_around(body, "="@) {
                Some(parts) => (parts.0, Some(parts.1)),
                None => (body, None),
            };
            if let Some(o) = long_option(options, name) {
                if !o.takes_value {
                    lemma_option_kept(before, o, Seq::empty());
                    if let Ok(after) = before.with_flag(o) {
                        lemma_then(options, commands, before, after, rest);
                    }
                } else {
                    match given {
                        Some(value) => {
                            lemma_option_kept(before, o, value);
                            if let Ok(after) = before.with_value(o, value) {
                                lemma_then(options, commands, before, after, rest);
                            }
                        },
                        None => {
                            lemma_next_kept(options, commands, before, o, rest);
                        },
                    }
                }
            }
        } else if arg.len() > 1 && arg[0] == '-' {
            lemma_shorts_kept(options, before, arg.drop_first(), arg);
            if let Ok(r) = with_shorts(options, before, arg.drop_first(), arg) {
                match r.1 {
                    None => {
                        lemma_then(options, commands, before, r.0, rest);
                    },
                    Some(o) => {
                        lemma_next_kept(options, commands, r.0, o, rest);
                        if let Ok(after) = with_next_value(options, commands, r.0, o, rest) {
                            lemma_keeps(before, r.0, after);
                        }
                    },
                }
            }
        } else if !commands {
            let after = ParsedView { words: before.words.push(arg), ..before };
            assert(after.words.subrange(0, before.words.len() as int) =~= before.words);
            lemma_then(options, commands, before, after, rest);
        }
    }
}

proof fn lemma_then(
    options: Seq<OptionView>,
    commands: bool,
    before: ParsedView,
    between: ParsedView,
    rest: Seq<Seq<char>>,
)
    requires
        keeps(before, between),
    ensures
        told_apart(options, commands, between, rest) matches Ok(after) ==> keeps(before, after),
    decreases rest.len(), 1nat,
{
    law_arguments_kept(options, commands, between, rest);
    if let Ok(after) = told_apart(options, commands, between, rest) {
        lemma_keeps(before, between, after);
    }
}

proof fn lemma_next_kept(
    options: Seq<OptionView>,
    commands: bool,
    before: ParsedView,
    o: OptionView,
    rest: Seq<Seq<char>>,
)
    ensures
        with_next_value(options, commands, before, o, rest) matches Ok(after) ==> keeps(
            before,
            after,
        ),
    decreases rest.len(), 1nat,
{
    if rest.len() > 0 && is_value(rest[0]) {
        lemma_option_kept(before, o, rest[0]);
        if let Ok(after) = before.with_value(o, rest[0]) {
            law_arguments_kept(options, commands, after, rest.drop_first());
            if let Ok(last) = told_apart(options, commands, after, rest.drop_first()) {
                lemma_keeps(before, after, last);
            }
        }
    }
}

proof fn lemma_top_names()
    ensures
        top_options().len() == 11,
        top_options()[0].long == "print"@,
        top_options()[4].long == "model"@,
        top_options()[5].long == "resume"@,
        top_options()[6].long == "permission-mode"@,
        forall|i: int, j: int|
            0 <= i < j < 11 ==> (#[trigger] top_options()[i]).long != (
            #[trigger] top_options()[j]).long,
        top_options()[0].takes_value,
        top_options()[4].takes_value,
        top_options()[5].takes_value,
        top_options()[6].takes_value,
        !"print"@.contains('='),
        !"model"@.contains('='),
        !"resume"@.contains('='),
        !"permission-mode"@.contains('='),
        "print"@.len() == 5,
        "model"@.len() == 5,
        "resume"@.len() == 6,
        "permission-mode"@.len() == 15,
        "image"@.len() == 5,
        "output-format"@.len() == 13,
        "transcript"@.len() == 10,
        "print"@[0] == 'p',
        "model"@[0] == 'm',
        "image"@[0] == 'i',
{
    reveal_strlit("print");
    reveal_strlit("image");
    reveal_strlit("output-format");
    reveal_strlit("transcript");
    reveal_strlit("model");
    reveal_strlit("resume");
    reveal_strlit("permission-mode");
    reveal_strlit("trust-project");
    reveal_strlit("verbose");
    reveal_strlit("debug");
    reveal_strlit("tui");
    assert("print"@.len() == 5 && "print"@[0] == 'p');
    assert("image"@.len() == 5 && "image"@[0] == 'i');
    assert("model"@.len() == 5 && "model"@[0] == 'm');
    assert("debug"@.len() == 5 && "debug"@[0] == 'd');
    assert("output-format"@.len() == 13 && "output-format"@[0] == 'o');
    assert("trust-project"@.len() == 13 && "trust-project"@[0] == 't');
    assert("transcript"@.len() == 10);
    assert("resume"@.len() == 6);
    assert("permission-mode"@.len() == 15);
    assert("verbose"@.len() == 7);
    assert("tui"@.len() == 3);
}

/// What is left of the settings where one option was given and nothing else.
pub open spec fn only_given(cli: CliView) -> bool {
    &&& cli.command is None
    &&& cli.image.len() == 0
    &&& cli.output_format is None
    &&& cli.transcript is None
    &&& !cli.trust_project
    &&& !cli.verbose
    &&& !cli.debug
    &&& !cli.tui
}

proof fn lemma_one_option(program: Seq<char>, i: int, value: Seq<char>)
    requires
        i == 0 || i == 4 || i == 5 || i == 6,
    ensures
        ({
            let name = top_options()[i].long;
            let cli = cli_of(seq![program, "--"@ + name + "="@ + value]);
            let given = Seq::empty().push((name, value));
            let p = ParsedView { values: given, ..ParsedView::none() };
            &&& cli == Ok::<CliView, ArgErrorView>(command_line(p, None))
            &&& only_given(cli->Ok_0)
        }),
{
    lemma_top_names();
    let o = top_options()[i];
    let name = o.long;
    lemma_long_option(top_options(), i);
    let given = Seq::empty().push((name, value));
    let p = ParsedView { values: given, ..ParsedView::none() };
    let arg = "--"@ + name + "="@ + value;
    let args = seq![program, arg];
    assert(args.drop_first() =~= seq![arg] + Seq::<Seq<char>>::empty());
    law_value_forms(top_options(), true, ParsedView::none(), name, value, Seq::empty());
    assert(!has_value(ParsedView::none().values, name));
    assert(ParsedView::none().with_value(o, value) == Ok::<ParsedView, ArgErrorView>(p));
    assert(told_apart(top_options(), true, p, Seq::empty()) == Ok::<ParsedView, ArgErrorView>(p));
    assert(given.drop_first() =~= Seq::empty());
    assert(given.drop_last() =~= Seq::empty());
    assert(given[0] == (name, value) && given.last() == (name, value));
    reveal_with_fuel(first_value, 2);
    reveal_with_fuel(values_of, 2);
    assert(values_of(given, "image"@) =~= Seq::empty());
}

/// An option that is given on the command line sets what it is named after, to any value, and
/// nothing else: the prompt, the model, the session to go on with, and the permission mode.
pub proof fn law_options_set(program: Seq<char>, value: Seq<char>)
    ensures
        ({
            let cli = cli_of(seq![program, "--"@ + "print"@ + "="@ + value]);
            &&& cli is Ok
            &&& only_given(cli->Ok_0)
            &&& cli->Ok_0.prompt == Some(value)
            &&& cli->Ok_0.model is None && cli->Ok_0.resume is None
            &&& cli->Ok_0.permission_mode is None
        }),
        ({
            let cli = cli_of(seq![program, "--"@ + "model"@ + "="@ + value]);
            &&& cli is Ok
            &&& only_given(cli->Ok_0)
            &&& cli->Ok_0.model == Some(value)
            &&& cli->Ok_0.prompt is None && cli->Ok_0.resume is None
            &&& cli->Ok_0.permission_mode is None
        }),
        ({
            let cli = cli_of(seq![program, "--"@ + "resume"@ + "="@ + value]);
            &&& cli is Ok
            &&& only_given(cli->Ok_0)
            &&& cli->Ok_0.resume == Some(value)
            &&& cli->Ok_0.prompt is None && cli->Ok_0.model is None
            &&& cli->Ok_0.permission_mode is None
        }),
        ({
            let cli = cli_of(seq![program, "--"@ + "permission-mode"@ + "="@ + value]);
            &&& cli is Ok
            &&& only_given(cli->Ok_0)
            &&& cli->Ok_0.permission_mode == Some(value)
            &&& cli->Ok_0.prompt is None && cli->Ok_0.model is None && cli->Ok_0.resume is None
        }),
{
    lemma_top_names();
    lemma_one_option(program, 0, value);
    lemma_one_option(program, 4, value);
    lemma_one_option(program, 5, value);
    lemma_one_option(program, 6, value);
    lemma_single_value("print"@, value);
    lemma_single_value("model"@, value);
    lemma_single_value("resume"@, value);
    lemma_single_value("permission-mode"@, value);
}

proof fn lemma_single_value(name: Seq<char>, value: Seq<char>)
    ensures
        forall|other: Seq<char>| #[trigger]
            first_value(Seq::empty().push((name, value)), other) == if other == name {
                Some(value)
            } else {
                None
            },
{
    let given = Seq::empty().push((name, value));
    assert(given.drop_first() =~= Seq::empty());
    assert(given[0] == (name, value));
    reveal_with_fuel(first_value, 2);
}

} // verus!
