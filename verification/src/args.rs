//! Command-line options: how arguments are told apart.

use vstd::prelude::*;
use vstd::string::{StrSliceExecFns, StringExecFns};
use crate::text;
use crate::text::{pair_views, parts_around, texts};

verus! {

/// An option of a command.
pub struct OptionSpec {
    /// The long name, without hyphens.
    pub long: &'static str,
    /// The short name.
    pub short: Option<char>,
    /// Whether a value follows it.
    pub takes_value: bool,
    /// Whether it may be given more than once.
    pub many: bool,
}

/// An option of a command, as a mathematical object.
pub struct OptionView {
    pub long: Seq<char>,
    pub short: Option<char>,
    pub takes_value: bool,
    pub many: bool,
}

impl View for OptionSpec {
    type V = OptionView;

    open spec fn view(&self) -> OptionView {
        OptionView {
            long: self.long@,
            short: self.short,
            takes_value: self.takes_value,
            many: self.many,
        }
    }
}

/// The options of a command.
pub open spec fn option_views(options: Seq<OptionSpec>) -> Seq<OptionView> {
    options.map_values(|o: OptionSpec| o@)
}

/// What is wrong with arguments.
#[derive(Debug)]
pub enum ArgError {
    /// An argument that the command does not take.
    Unexpected(String),
    /// An option without its value.
    MissingValue(String),
    /// An option that was given twice.
    Repeated(String),
    /// A value that an option or argument does not take.
    InvalidValue(String, String),
    /// An argument that is missing.
    MissingArgument(String),
    /// An option that is only for a prompt, without a prompt.
    RequiresPrompt(String),
}

/// What is wrong with arguments, as a mathematical object.
pub enum ArgErrorView {
    Unexpected(Seq<char>),
    MissingValue(Seq<char>),
    Repeated(Seq<char>),
    InvalidValue(Seq<char>, Seq<char>),
    MissingArgument(Seq<char>),
    RequiresPrompt(Seq<char>),
}

impl View for ArgError {
    type V = ArgErrorView;

    open spec fn view(&self) -> ArgErrorView {
        match self {
            ArgError::Unexpected(a) => ArgErrorView::Unexpected(a@),
            ArgError::MissingValue(a) => ArgErrorView::MissingValue(a@),
            ArgError::Repeated(a) => ArgErrorView::Repeated(a@),
            ArgError::InvalidValue(a, b) => ArgErrorView::InvalidValue(a@, b@),
            ArgError::MissingArgument(a) => ArgErrorView::MissingArgument(a@),
            ArgError::RequiresPrompt(a) => ArgErrorView::RequiresPrompt(a@),
        }
    }
}

/// Arguments told apart.
pub struct Parsed {
    /// The options without values that were given.
    pub flags: Vec<String>,
    /// The options with values that were given, in order.
    pub values: Vec<(String, String)>,
    /// The other arguments.
    pub words: Vec<String>,
    /// The command within the command and its arguments.
    pub rest: Vec<String>,
}

/// Arguments told apart, as a mathematical object.
#[verifier::ext_equal]
pub struct ParsedView {
    pub flags: Seq<Seq<char>>,
    pub values: Seq<(Seq<char>, Seq<char>)>,
    pub words: Seq<Seq<char>>,
    pub rest: Seq<Seq<char>>,
}

impl View for Parsed {
    type V = ParsedView;

    open spec fn view(&self) -> ParsedView {
        ParsedView {
            flags: texts(self.flags@),
            values: pair_views(self.values@),
            words: texts(self.words@),
            rest: texts(self.rest@),
        }
    }
}

/// Whether an option was given a value.
pub open spec fn has_value(values: Seq<(Seq<char>, Seq<char>)>, name: Seq<char>) -> bool {
    exists|i: int| 0 <= i < values.len() && (#[trigger] values[i]).0 == name
}

impl ParsedView {
    /// Nothing given.
    pub open spec fn none() -> ParsedView {
        ParsedView {
            flags: Seq::empty(),
            values: Seq::empty(),
            words: Seq::empty(),
            rest: Seq::empty(),
        }
    }

    /// With an option that has no value; not twice.
    pub open spec fn with_flag(self, o: OptionView) -> Result<ParsedView, ArgErrorView> {
        if self.flags.contains(o.long) {
            Err(ArgErrorView::Repeated(o.long))
        } else {
            Ok(ParsedView { flags: self.flags.push(o.long), ..self })
        }
    }

    /// With an option and its value; not twice unless it may be.
    pub open spec fn with_value(self, o: OptionView, value: Seq<char>) -> Result<
        ParsedView,
        ArgErrorView,
    > {
        if !o.many && has_value(self.values, o.long) {
            Err(ArgErrorView::Repeated(o.long))
        } else {
            Ok(ParsedView { values: self.values.push((o.long, value)), ..self })
        }
    }

    /// The value of an option.
    pub open spec fn value(self, name: Seq<char>) -> Option<Seq<char>> {
        first_value(self.values, name)
    }
}

/// The first value of an option.
pub open spec fn first_value(values: Seq<(Seq<char>, Seq<char>)>, name: Seq<char>) -> Option<
    Seq<char>,
>
    decreases values.len(),
{
    if values.len() == 0 {
        None
    } else if values[0].0 == name {
        Some(values[0].1)
    } else {
        first_value(values.drop_first(), name)
    }
}

/// The option of a long name.
pub open spec fn long_option(options: Seq<OptionView>, name: Seq<char>) -> Option<OptionView>
    decreases options.len(),
{
    if options.len() == 0 {
        None
    } else if options[0].long == name {
        Some(options[0])
    } else {
        long_option(options.drop_first(), name)
    }
}

/// The option of a short name.
pub open spec fn short_option(options: Seq<OptionView>, name: char) -> Option<OptionView>
    decreases options.len(),
{
    if options.len() == 0 {
        None
    } else if options[0].short == Some(name) {
        Some(options[0])
    } else {
        short_option(options.drop_first(), name)
    }
}

/// Whether an argument can be the value of the option before it.
pub open spec fn is_value(arg: Seq<char>) -> bool {
    !(arg.len() > 1 && arg[0] == '-')
}

/// A value without the equals sign before it.
pub open spec fn without_equals(s: Seq<char>) -> Seq<char> {
    if s.len() > 0 && s[0] == '=' {
        s.drop_first()
    } else {
        s
    }
}

/// Arguments with the short options of one argument; the last may await its value.
pub open spec fn with_shorts(
    options: Seq<OptionView>,
    before: ParsedView,
    names: Seq<char>,
    arg: Seq<char>,
) -> Result<(ParsedView, Option<OptionView>), ArgErrorView>
    decreases names.len(),
{
    if names.len() == 0 {
        Ok((before, None))
    } else {
        match short_option(options, names[0]) {
            None => Err(ArgErrorView::Unexpected(arg)),
            Some(o) => if !o.takes_value {
                match before.with_flag(o) {
                    Err(e) => Err(e),
                    Ok(after) => with_shorts(options, after, names.drop_first(), arg),
                }
            } else if names.len() == 1 {
                Ok((before, Some(o)))
            } else {
                match before.with_value(o, without_equals(names.drop_first())) {
                    Err(e) => Err(e),
                    Ok(after) => Ok((after, None)),
                }
            },
        }
    }
}

/// Arguments with an option that has its value in the next one.
pub open spec fn with_next_value(
    options: Seq<OptionView>,
    commands: bool,
    before: ParsedView,
    o: OptionView,
    args: Seq<Seq<char>>,
) -> Result<ParsedView, ArgErrorView>
    decreases args.len(), 0nat,
{
    if args.len() == 0 || !is_value(args[0]) {
        Err(ArgErrorView::MissingValue(o.long))
    } else {
        match before.with_value(o, args[0]) {
            Err(e) => Err(e),
            Ok(after) => told_apart(options, commands, after, args.drop_first()),
        }
    }
}

/// Arguments told apart, behind others. An argument without hyphens is the command within
/// the command where there are such commands, and else a word; after two hyphens every
/// argument is a word.
pub open spec fn told_apart(
    options: Seq<OptionView>,
    commands: bool,
    before: ParsedView,
    args: Seq<Seq<char>>,
) -> Result<ParsedView, ArgErrorView>
    decreases args.len(), 1nat,
{
    if args.len() == 0 {
        Ok(before)
    } else {
        let arg = args[0];
        let rest = args.drop_first();
        if arg == "--"@ {
            Ok(ParsedView { words: before.words + rest, ..before })
        } else if "--"@.is_prefix_of(arg) {
            let body = arg.skip(2);
            let (name, given) = match parts_around(body, "="@) {
                Some(parts) => (parts.0, Some(parts.1)),
                None => (body, None),
            };
            match long_option(options, name) {
                None => Err(ArgErrorView::Unexpected(arg)),
                Some(o) => if !o.takes_value {
                    if given is Some {
                        Err(ArgErrorView::Unexpected(arg))
                    } else {
                        match before.with_flag(o) {
                            Err(e) => Err(e),
                            Ok(after) => told_apart(options, commands, after, rest),
                        }
                    }
                } else {
                    match given {
                        Some(value) => match before.with_value(o, value) {
                            Err(e) => Err(e),
                            Ok(after) => told_apart(options, commands, after, rest),
                        },
                        None => with_next_value(options, commands, before, o, rest),
                    }
                },
            }
        } else if arg.len() > 1 && arg[0] == '-' {
            match with_shorts(options, before, arg.drop_first(), arg) {
                Err(e) => Err(e),
                Ok(r) => match r.1 {
                    None => told_apart(options, commands, r.0, rest),
                    Some(o) => with_next_value(options, commands, r.0, o, rest),
                },
            }
        } else if commands {
            Ok(ParsedView { rest: args, ..before })
        } else {
            told_apart(
                options,
                commands,
                ParsedView { words: before.words.push(arg), ..before },
                rest,
            )
        }
    }
}

/// The outcome of telling arguments apart.
pub open spec fn parse_view(r: Result<Parsed, ArgError>) -> Result<ParsedView, ArgErrorView> {
    match r {
        Ok(p) => Ok(p@),
        Err(e) => Err(e@),
    }
}

fn find_long(options: &Vec<OptionSpec>, name: &str) -> (r: Option<usize>)
    ensures
        long_option(option_views(options@), name@) == (match r {
            Some(i) => Some(options@[i as int]@),
            None => None,
        }),
        r matches Some(i) ==> i < options@.len(),
{
    let ghost all = option_views(options@);
    let mut i: usize = 0;
    assert(all.skip(0) =~= all);
    while i < options.len()
        invariant
            i <= options@.len(),
            all == option_views(options@),
            long_option(all.skip(i as int), name@) == long_option(all, name@),
        decreases options.len() - i,
    {
        assert(all.skip(i as int)[0] == options@[i as int]@);
        assert(all.skip(i as int).drop_first() =~= all.skip(i + 1));
        if text::same(options[i].long, name) {
            return Some(i);
        }
        i = i + 1;
    }
    None
}

fn find_short(options: &Vec<OptionSpec>, name: char) -> (r: Option<usize>)
    ensures
        short_option(option_views(options@), name) == (match r {
            Some(i) => Some(options@[i as int]@),
            None => None,
        }),
        r matches Some(i) ==> i < options@.len(),
{
    let ghost all = option_views(options@);
    let mut i: usize = 0;
    assert(all.skip(0) =~= all);
    while i < options.len()
        invariant
            i <= options@.len(),
            all == option_views(options@),
            short_option(all.skip(i as int), name) == short_option(all, name),
        decreases options.len() - i,
    {
        assert(all.skip(i as int)[0] == options@[i as int]@);
        assert(all.skip(i as int).drop_first() =~= all.skip(i + 1));
        match options[i].short {
            Some(c) => if c == name {
                return Some(i);
            },
            None => {},
        }
        i = i + 1;
    }
    None
}

fn lists(items: &Vec<String>, item: &str) -> (r: bool)
    ensures
        r == texts(items@).contains(item@),
{
    let mut i: usize = 0;
    while i < items.len()
        invariant
            i <= items@.len(),
            forall|k: int| 0 <= k < i ==> #[trigger] texts(items@)[k] != item@,
        decreases items.len() - i,
    {
        if text::same(items[i].as_str(), item) {
            assert(texts(items@)[i as int] == item@);
            return true;
        }
        i = i + 1;
    }
    false
}

fn names_value(values: &Vec<(String, String)>, name: &str) -> (r: bool)
    ensures
        r == has_value(pair_views(values@), name@),
{
    let mut i: usize = 0;
    while i < values.len()
        invariant
            i <= values@.len(),
            forall|k: int| 0 <= k < i ==> (#[trigger] pair_views(values@)[k]).0 != name@,
        decreases values.len() - i,
    {
        if text::same(values[i].0.as_str(), name) {
            assert(pair_views(values@)[i as int].0 == name@);
            return true;
        }
        i = i + 1;
    }
    false
}

impl Parsed {
    /// Nothing given.
    pub fn none() -> (r: Parsed)
        ensures
            r@ == ParsedView::none(),
    {
        let r = Parsed {
            flags: Vec::new(),
            values: Vec::new(),
            words: Vec::new(),
            rest: Vec::new(),
        };
        assert(r@ =~= ParsedView::none());
        r
    }

    fn set_flag(self, o: &OptionSpec) -> (r: Result<Parsed, ArgError>)
        ensures
            parse_view(r) == self@.with_flag(o@),
    {
        if lists(&self.flags, o.long) {
            return Err(ArgError::Repeated(o.long.to_owned()));
        }
        let ghost before = self@;
        let mut flags = self.flags;
        flags.push(o.long.to_owned());
        assert(texts(flags@) =~= before.flags.push(o.long@));
        Ok(Parsed { flags, values: self.values, words: self.words, rest: self.rest })
    }

    fn set_value(self, o: &OptionSpec, value: String) -> (r: Result<Parsed, ArgError>)
        ensures
            parse_view(r) == self@.with_value(o@, value@),
    {
        if !o.many && names_value(&self.values, o.long) {
            return Err(ArgError::Repeated(o.long.to_owned()));
        }
        let ghost before = self@;
        let ghost view = value@;
        let mut values = self.values;
        values.push((o.long.to_owned(), value));
        assert(pair_views(values@) =~= before.values.push((o.long@, view)));
        Ok(Parsed { flags: self.flags, values, words: self.words, rest: self.rest })
    }

    /// Whether an option without a value was given.
    pub fn has_flag(&self, name: &str) -> (r: bool)
        ensures
            r == self@.flags.contains(name@),
    {
        lists(&self.flags, name)
    }

    /// The value of an option.
    pub fn value(&self, name: &str) -> (r: Option<String>)
        ensures
            crate::api::types::text_option(r) == self@.value(name@),
    {
        let ghost all = self@.values;
        let mut i: usize = 0;
        assert(all.skip(0) =~= all);
        while i < self.values.len()
            invariant
                i <= self.values@.len(),
                all == self@.values,
                first_value(all.skip(i as int), name@) == first_value(all, name@),
            decreases self.values.len() - i,
        {
            assert(all.skip(i as int)[0] == all[i as int]);
            assert(all.skip(i as int).drop_first() =~= all.skip(i + 1));
            if text::same(self.values[i].0.as_str(), name) {
                return Some(self.values[i].1.clone());
            }
            i = i + 1;
        }
        None
    }
}

fn take_shorts(options: &Vec<OptionSpec>, before: Parsed, arg: &str) -> (r: Result<
    (Parsed, Option<usize>),
    ArgError,
>)
    requires
        arg@.len() > 0,
    ensures
        match with_shorts(option_views(options@), before@, arg@.drop_first(), arg@) {
            Err(e) => r matches Err(x) && x@ == e,
            Ok(p) => r matches Ok(q) && q.0@ == p.0 && p.1 == (match q.1 {
                Some(i) => Some(options@[i as int]@),
                None => None,
            }) && (q.1 matches Some(i) ==> i < options@.len()),
        },
{
    let ghost all = option_views(options@);
    let chars = text::chars_of(arg);
    let n = chars.len();
    let ghost start = before@;
    let mut parsed = before;
    let mut i: usize = 1;
    assert(arg@.drop_first() =~= chars@.skip(1));
    while i < n
        invariant
            1 <= i <= n,
            n == chars@.len(),
            chars@ == arg@,
            all == option_views(options@),
            start == before@,
            with_shorts(all, parsed@, chars@.skip(i as int), arg@) == with_shorts(
                all,
                start,
                arg@.drop_first(),
                arg@,
            ),
        decreases n - i,
    {
        let ghost names = chars@.skip(i as int);
        assert(names[0] == chars@[i as int]);
        assert(names.drop_first() =~= chars@.skip(i + 1));
        match find_short(options, chars[i]) {
            None => return Err(ArgError::Unexpected(arg.to_owned())),
            Some(k) => {
                if !options[k].takes_value {
                    match parsed.set_flag(&options[k]) {
                        Err(e) => return Err(e),
                        Ok(p) => {
                            parsed = p;
                        },
                    }
                    i = i + 1;
                } else if i + 1 == n {
                    return Ok((parsed, Some(k)));
                } else {
                    let from: usize = if chars[i + 1] == '=' {
                        i + 2
                    } else {
                        i + 1
                    };
                    let value = text::string_of(
                        vstd::slice::slice_subrange(chars.as_slice(), from, n),
                    );
                    assert(value@ =~= without_equals(names.drop_first()));
                    return match parsed.set_value(&options[k], value) {
                        Err(e) => Err(e),
                        Ok(p) => Ok((p, None)),
                    };
                }
            },
        }
    }
    assert(chars@.skip(i as int) =~= Seq::empty());
    Ok((parsed, None))
}

pub fn can_be_value(arg: &str) -> (r: bool)
    ensures
        r == is_value(arg@),
{
    let chars = text::chars_of(arg);
    !(chars.len() > 1 && chars[0] == '-')
}

fn copy_from(args: &[String], from: usize) -> (r: Vec<String>)
    requires
        from <= args@.len(),
    ensures
        texts(r@) == texts(args@).skip(from as int),
{
    let ghost all = texts(args@).skip(from as int);
    let mut out: Vec<String> = Vec::new();
    assert(texts(out@) =~= all.take(0));
    let mut i: usize = from;
    while i < args.len()
        invariant
            from <= i <= args@.len(),
            all == texts(args@).skip(from as int),
            texts(out@) == all.take(i - from),
        decreases args.len() - i,
    {
        let ghost before = texts(out@);
        out.push(args[i].clone());
        assert(texts(out@) =~= before.push(all[i - from]));
        i = i + 1;
        assert(texts(out@) =~= all.take(i - from));
    }
    assert(all.take(args@.len() - from) =~= all);
    out
}

/// One argument: what came of it, and whether an option awaits its value in the next one.
enum ArgStep {
    Going(Parsed),
    Awaiting(Parsed, usize),
    Failed(ArgError),
}

fn take_long(options: &Vec<OptionSpec>, before: Parsed, arg: &str) -> (r: ArgStep)
    requires
        "--"@.is_prefix_of(arg@),
    ensures
        ({
            let all = option_views(options@);
            let body = arg@.skip(2);
            let (name, given) = match parts_around(body, "="@) {
                Some(parts) => (parts.0, Some(parts.1)),
                None => (body, None),
            };
            match long_option(all, name) {
                None => r matches ArgStep::Failed(e) && e@ == ArgErrorView::Unexpected(arg@),
                Some(o) => if !o.takes_value && given is Some {
                    r matches ArgStep::Failed(e) && e@ == ArgErrorView::Unexpected(arg@)
                } else if !o.takes_value {
                    match before@.with_flag(o) {
                        Err(e) => r matches ArgStep::Failed(x) && x@ == e,
                        Ok(p) => r matches ArgStep::Going(q) && q@ == p,
                    }
                } else {
                    match given {
                        Some(value) => match before@.with_value(o, value) {
                            Err(e) => r matches ArgStep::Failed(x) && x@ == e,
                            Ok(p) => r matches ArgStep::Going(q) && q@ == p,
                        },
                        None => r matches ArgStep::Awaiting(q, i) && q@ == before@ && i
                            < options@.len() && options@[i as int]@ == o,
                    }
                },
            }
        }),
{
    proof {
        reveal_strlit("--");
    }
    let chars = text::chars_of(arg);
    let body = text::string_of(vstd::slice::slice_subrange(chars.as_slice(), 2, chars.len()));
    assert(body@ =~= arg@.skip(2));
    let (name, given) = match text::split_once(body.as_str(), "=") {
        Some(parts) => (parts.0, Some(parts.1)),
        None => (body, None),
    };
    match find_long(options, name.as_str()) {
        None => ArgStep::Failed(ArgError::Unexpected(arg.to_owned())),
        Some(i) => {
            if !options[i].takes_value {
                if given.is_some() {
                    return ArgStep::Failed(ArgError::Unexpected(arg.to_owned()));
                }
                return match before.set_flag(&options[i]) {
                    Err(e) => ArgStep::Failed(e),
                    Ok(p) => ArgStep::Going(p),
                };
            }
            match given {
                Some(value) => match before.set_value(&options[i], value) {
                    Err(e) => ArgStep::Failed(e),
                    Ok(p) => ArgStep::Going(p),
                },
                None => ArgStep::Awaiting(before, i),
            }
        },
    }
}

/// Tells arguments apart.
pub fn tell_apart(options: &Vec<OptionSpec>, commands: bool, args: &[String]) -> (r: Result<
    Parsed,
    ArgError,
>)
    ensures
        parse_view(r) == told_apart(
            option_views(options@),
            commands,
            ParsedView::none(),
            texts(args@),
        ),
{
    let ghost all = texts(args@);
    let ghost opts = option_views(options@);
    let ghost goal = told_apart(opts, commands, ParsedView::none(), all);
    let mut parsed = Parsed::none();
    let mut i: usize = 0;
    assert(all.skip(0) =~= all);
    while i < args.len()
        invariant
            i <= args@.len(),
            all == texts(args@),
            opts == option_views(options@),
            goal == told_apart(opts, commands, ParsedView::none(), all),
            told_apart(opts, commands, parsed@, all.skip(i as int)) == goal,
        decreases args.len() - i,
    {
        let ghost left = all.skip(i as int);
        assert(left[0] == args@[i as int]@);
        assert(left.drop_first() =~= all.skip(i + 1));
        let arg = args[i].as_str();
        if text::same(arg, "--") {
            let mut words = parsed.words;
            let mut more = copy_from(args, i + 1);
            let ghost before = texts(words@);
            let ghost added = texts(more@);
            words.append(&mut more);
            assert(texts(words@) =~= before + added);
            return Ok(
                Parsed { flags: parsed.flags, values: parsed.values, words, rest: parsed.rest },
            );
        }
        let step = if text::starts_with(arg, "--") {
            take_long(options, parsed, arg)
        } else if !can_be_value(arg) {
            match take_shorts(options, parsed, arg) {
                Err(e) => ArgStep::Failed(e),
                Ok(p) => match p.1 {
                    None => ArgStep::Going(p.0),
                    Some(k) => ArgStep::Awaiting(p.0, k),
                },
            }
        } else if commands {
            let rest = copy_from(args, i);
            return Ok(
                Parsed {
                    flags: parsed.flags,
                    values: parsed.values,
                    words: parsed.words,
                    rest,
                },
            );
        } else {
            let ghost before = texts(parsed.words@);
            let mut words = parsed.words;
            words.push(arg.to_owned());
            assert(texts(words@) =~= before.push(arg@));
            ArgStep::Going(
                Parsed { flags: parsed.flags, values: parsed.values, words, rest: parsed.rest },
            )
        };
        match step {
            ArgStep::Failed(e) => return Err(e),
            ArgStep::Going(p) => {
                parsed = p;
                i = i + 1;
            },
            ArgStep::Awaiting(p, k) => {
                proof {
                    reveal_with_fuel(with_next_value, 2);
                    assert(goal == with_next_value(
                        opts,
                        commands,
                        p@,
                        options@[k as int]@,
                        left.drop_first(),
                    ));
                }
                i = i + 1;
                if i >= args.len() || !can_be_value(args[i].as_str()) {
                    return Err(ArgError::MissingValue(options[k].long.to_owned()));
                }
                assert(all.skip(i as int)[0] == args@[i as int]@);
                assert(all.skip(i as int).drop_first() =~= all.skip(i + 1));
                match p.set_value(&options[k], args[i].clone()) {
                    Err(e) => return Err(e),
                    Ok(q) => {
                        parsed = q;
                        i = i + 1;
                    },
                }
            },
        }
    }
    assert(all.skip(i as int) =~= Seq::empty());
    Ok(parsed)
}

} // verus!
