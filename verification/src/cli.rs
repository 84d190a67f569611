//! What the command line asks for.

use vstd::prelude::*;
use crate::api::types::text_option;
use crate::args::{
    can_be_value, is_value, option_views, tell_apart, told_apart, ArgError, ArgErrorView, OptionSpec,
    OptionView, Parsed, ParsedView,
};
use crate::text;
use crate::text::texts;

verus! {

/// The command line.
pub struct Cli {
    pub command: Option<CliCommand>,
    /// A prompt to answer once.
    pub prompt: Option<String>,
    /// Images to attach to the prompt.
    pub image: Vec<String>,
    /// The form of the answer.
    pub output_format: Option<OutputFormat>,
    /// Where the transcript is written.
    pub transcript: Option<String>,
    pub model: Option<String>,
    /// A session to resume.
    pub resume: Option<String>,
    pub permission_mode: Option<String>,
    /// Trust the configuration of the project.
    pub trust_project: bool,
    pub verbose: bool,
    pub debug: bool,
    /// Use the full-screen interface.
    pub tui: bool,
}

/// The form of an answer.
#[derive(Debug, Clone, Copy, PartialEq, Eq, Structural)]
pub enum OutputFormat {
    Text,
    Json,
}

impl Default for OutputFormat {
    fn default() -> (r: OutputFormat)
        ensures
            r == OutputFormat::Text,
    {
        OutputFormat::Text
    }
}

/// A command of the command line.
#[allow(inconsistent_fields)]
pub enum CliCommand {
    Auth { command: AuthCommand },
    Doctor { offline: bool },
    TokenizerFingerprint { models: Vec<String>, json: bool },
    Config { command: ConfigCommand },
    SandboxExec { workspace: String, command: String },
    SandboxProbe,
}

/// A command on credentials.
#[allow(inconsistent_fields)]
pub enum AuthCommand {
    Login { provider: AuthProvider, headless: bool, no_browser: bool },
    Status { provider: AuthProvider },
    Logout { provider: AuthProvider },
    Token { provider: AuthProvider },
}

/// A provider whose credentials are kept.
#[derive(Debug, Clone, Copy, PartialEq, Eq, Structural)]
pub enum AuthProvider {
    OpenRouter,
}

/// A command on the configuration.
pub enum ConfigCommand {
    Init { provider: ConfigProvider, model: Option<String>, force: bool },
}

/// A provider that can be configured.
#[derive(Debug, Clone, Copy, PartialEq, Eq, Structural)]
pub enum ConfigProvider {
    Anthropic,
    Openai,
    OpenRouter,
    Ollama,
}

/// What the program does.
pub enum Task {
    /// Runs a command inside the sandbox.
    SandboxExec { workspace: String, command: String },
    /// Tests the sandbox.
    SandboxProbe,
    Auth(AuthCommand),
    InitConfig { provider: ConfigProvider, model: Option<String>, force: bool },
    Doctor { offline: bool },
    CompareTokenizers { models: Vec<String>, json: bool },
    /// Answers a prompt once.
    OneShot { prompt: String },
    /// Runs the full-screen interface.
    FullScreen,
    /// Runs the line-based interface.
    Interactive,
}

/// Whether a task is the one that the command line asks for: a command before a prompt,
/// a prompt before an interface.
pub open spec fn is_task(cli: Cli, task: Task) -> bool {
    match cli.command {
        Some(CliCommand::SandboxExec { workspace, command }) => task == (Task::SandboxExec {
            workspace,
            command,
        }),
        Some(CliCommand::SandboxProbe) => task == Task::SandboxProbe,
        Some(CliCommand::Auth { command }) => task == Task::Auth(command),
        Some(CliCommand::Config { command }) => match command {
            ConfigCommand::Init { provider, model, force } => task == (Task::InitConfig {
                provider,
                model,
                force,
            }),
        },
        Some(CliCommand::Doctor { offline }) => task == (Task::Doctor { offline }),
        Some(CliCommand::TokenizerFingerprint { models, json }) => task == (
        Task::CompareTokenizers { models, json }),
        None => match cli.prompt {
            Some(prompt) => task == (Task::OneShot { prompt }),
            None => task == if cli.tui {
                Task::FullScreen
            } else {
                Task::Interactive
            },
        },
    }
}

impl Cli {
    /// What the program does.
    pub fn task(self) -> (r: Task)
        ensures
            is_task(self, r),
    {
        match self.command {
            Some(CliCommand::SandboxExec { workspace, command }) => Task::SandboxExec {
                workspace,
                command,
            },
            Some(CliCommand::SandboxProbe) => Task::SandboxProbe,
            Some(CliCommand::Auth { command }) => Task::Auth(command),
            Some(CliCommand::Config { command }) => match command {
                ConfigCommand::Init { provider, model, force } => Task::InitConfig {
                    provider,
                    model,
                    force,
                },
            },
            Some(CliCommand::Doctor { offline }) => Task::Doctor { offline },
            Some(CliCommand::TokenizerFingerprint { models, json }) => Task::CompareTokenizers {
                models,
                json,
            },
            None => match self.prompt {
                Some(prompt) => Task::OneShot { prompt },
                None => if self.tui {
                    Task::FullScreen
                } else {
                    Task::Interactive
                },
            },
        }
    }
}

/// A command of the command line, as a mathematical object.
#[allow(inconsistent_fields)]
pub enum CliCommandView {
    Auth { command: AuthCommand },
    Doctor { offline: bool },
    TokenizerFingerprint { models: Seq<Seq<char>>, json: bool },
    Config { command: ConfigCommandView },
    SandboxExec { workspace: Seq<char>, command: Seq<char> },
    SandboxProbe,
}

/// A command on the configuration, as a mathematical object.
pub enum ConfigCommandView {
    Init { provider: ConfigProvider, model: Option<Seq<char>>, force: bool },
}

/// The command line as a mathematical object.
#[verifier::ext_equal]
pub struct CliView {
    pub command: Option<CliCommandView>,
    pub prompt: Option<Seq<char>>,
    pub image: Seq<Seq<char>>,
    pub output_format: Option<OutputFormat>,
    pub transcript: Option<Seq<char>>,
    pub model: Option<Seq<char>>,
    pub resume: Option<Seq<char>>,
    pub permission_mode: Option<Seq<char>>,
    pub trust_project: bool,
    pub verbose: bool,
    pub debug: bool,
    pub tui: bool,
}

impl View for ConfigCommand {
    type V = ConfigCommandView;

    open spec fn view(&self) -> ConfigCommandView {
        match self {
            ConfigCommand::Init { provider, model, force } => ConfigCommandView::Init {
                provider: *provider,
                model: text_option(*model),
                force: *force,
            },
        }
    }
}

impl View for CliCommand {
    type V = CliCommandView;

    open spec fn view(&self) -> CliCommandView {
        match self {
            CliCommand::Auth { command } => CliCommandView::Auth { command: *command },
            CliCommand::Doctor { offline } => CliCommandView::Doctor { offline: *offline },
            CliCommand::TokenizerFingerprint { models, json } => {
                CliCommandView::TokenizerFingerprint { models: texts(models@), json: *json }
            },
            CliCommand::Config { command } => CliCommandView::Config { command: command@ },
            CliCommand::SandboxExec { workspace, command } => CliCommandView::SandboxExec {
                workspace: workspace@,
                command: command@,
            },
            CliCommand::SandboxProbe => CliCommandView::SandboxProbe,
        }
    }
}

impl View for Cli {
    type V = CliView;

    open spec fn view(&self) -> CliView {
        CliView {
            command: match self.command {
                Some(c) => Some(c@),
                None => None,
            },
            prompt: text_option(self.prompt),
            image: texts(self.image@),
            output_format: self.output_format,
            transcript: text_option(self.transcript),
            model: text_option(self.model),
            resume: text_option(self.resume),
            permission_mode: text_option(self.permission_mode),
            trust_project: self.trust_project,
            verbose: self.verbose,
            debug: self.debug,
            tui: self.tui,
        }
    }
}

/// An option without a value.
pub open spec fn flag(long: Seq<char>) -> OptionView {
    OptionView { long, short: None, takes_value: false, many: false }
}

/// An option with a value.
pub open spec fn valued(long: Seq<char>) -> OptionView {
    OptionView { long, short: None, takes_value: true, many: false }
}

/// The options of the program.
pub open spec fn top_options() -> Seq<OptionView> {
    seq![
        OptionView { long: "print"@, short: Some('p'), takes_value: true, many: false },
        OptionView { long: "image"@, short: None, takes_value: true, many: true },
        valued("output-format"@),
        valued("transcript"@),
        valued("model"@),
        valued("resume"@),
        valued("permission-mode"@),
        flag("trust-project"@),
        OptionView { long: "verbose"@, short: Some('v'), takes_value: false, many: false },
        flag("debug"@),
        flag("tui"@),
    ]
}

fn push_flag(options: &mut Vec<OptionSpec>, long: &'static str, short: Option<char>)
    ensures
        option_views(final(options)@) == option_views(old(options)@).push(
            OptionView { long: long@, short, takes_value: false, many: false },
        ),
{
    options.push(OptionSpec { long, short, takes_value: false, many: false });
    assert(option_views(options@) =~= option_views(old(options)@).push(
        OptionView { long: long@, short, takes_value: false, many: false },
    ));
}

fn push_valued(options: &mut Vec<OptionSpec>, long: &'static str, short: Option<char>, many: bool)
    ensures
        option_views(final(options)@) == option_views(old(options)@).push(
            OptionView { long: long@, short, takes_value: true, many },
        ),
{
    options.push(OptionSpec { long, short, takes_value: true, many });
    assert(option_views(options@) =~= option_views(old(options)@).push(
        OptionView { long: long@, short, takes_value: true, many },
    ));
}

fn program_options() -> (r: Vec<OptionSpec>)
    ensures
        option_views(r@) == top_options(),
{
    let mut options: Vec<OptionSpec> = Vec::new();
    push_valued(&mut options, "print", Some('p'), false);
    push_valued(&mut options, "image", None, true);
    push_valued(&mut options, "output-format", None, false);
    push_valued(&mut options, "transcript", None, false);
    push_valued(&mut options, "model", None, false);
    push_valued(&mut options, "resume", None, false);
    push_valued(&mut options, "permission-mode", None, false);
    push_flag(&mut options, "trust-project", None);
    push_flag(&mut options, "verbose", Some('v'));
    push_flag(&mut options, "debug", None);
    push_flag(&mut options, "tui", None);
    assert(option_views(options@) =~= top_options());
    options
}

/// The values of an option, in order.
pub open spec fn values_of(values: Seq<(Seq<char>, Seq<char>)>, name: Seq<char>) -> Seq<Seq<char>>
    decreases values.len(),
{
    if values.len() == 0 {
        Seq::empty()
    } else {
        let before = values_of(values.drop_last(), name);
        if values.last().0 == name {
            before.push(values.last().1)
        } else {
            before
        }
    }
}

fn all_values(parsed: &Parsed, name: &str) -> (r: Vec<String>)
    ensures
        texts(r@) == values_of(parsed@.values, name@),
{
    let ghost all = parsed@.values;
    let mut out: Vec<String> = Vec::new();
    assert(texts(out@) =~= values_of(all.take(0), name@));
    let mut i: usize = 0;
    while i < parsed.values.len()
        invariant
            i <= parsed.values@.len(),
            all == parsed@.values,
            texts(out@) == values_of(all.take(i as int), name@),
        decreases parsed.values.len() - i,
    {
        assert(all.take(i + 1).drop_last() =~= all.take(i as int));
        assert(all.take(i + 1).last() == (
            parsed.values@[i as int].0@,
            parsed.values@[i as int].1@,
        ));
        if text::same(parsed.values[i].0.as_str(), name) {
            let ghost before = texts(out@);
            out.push(parsed.values[i].1.clone());
            assert(texts(out@) =~= before.push(parsed.values@[i as int].1@));
        }
        i = i + 1;
    }
    assert(all.take(parsed.values@.len() as int) =~= all);
    out
}

/// The form of an answer by its name.
pub open spec fn format_named(name: Seq<char>) -> Option<OutputFormat> {
    if name == "text"@ {
        Some(OutputFormat::Text)
    } else if name == "json"@ {
        Some(OutputFormat::Json)
    } else {
        None
    }
}

/// A provider that can be configured by its name.
pub open spec fn provider_named(name: Seq<char>) -> Option<ConfigProvider> {
    if name == "anthropic"@ {
        Some(ConfigProvider::Anthropic)
    } else if name == "openai"@ {
        Some(ConfigProvider::Openai)
    } else if name == "openrouter"@ {
        Some(ConfigProvider::OpenRouter)
    } else if name == "ollama"@ {
        Some(ConfigProvider::Ollama)
    } else {
        None
    }
}

/// The provider that a command on credentials names, its only argument.
pub open spec fn auth_provider(words: Seq<Seq<char>>) -> Result<AuthProvider, ArgErrorView> {
    if words.len() == 0 {
        Err(ArgErrorView::MissingArgument("PROVIDER"@))
    } else if words[0] != "openrouter"@ {
        Err(ArgErrorView::InvalidValue("PROVIDER"@, words[0]))
    } else if words.len() > 1 {
        Err(ArgErrorView::Unexpected(words[1]))
    } else {
        Ok(AuthProvider::OpenRouter)
    }
}

/// A command on credentials.
pub open spec fn auth_command(args: Seq<Seq<char>>) -> Result<AuthCommand, ArgErrorView> {
    match told_apart(Seq::empty(), true, ParsedView::none(), args) {
        Err(e) => Err(e),
        Ok(p) => if p.words.len() > 0 {
            Err(ArgErrorView::Unexpected(p.words[0]))
        } else if p.rest.len() == 0 {
            Err(ArgErrorView::MissingArgument("COMMAND"@))
        } else {
            let name = p.rest[0];
            let options = if name == "login"@ {
                seq![flag("headless"@), flag("no-browser"@)]
            } else {
                Seq::empty()
            };
            if name != "login"@ && name != "status"@ && name != "logout"@ && name != "token"@ {
                Err(ArgErrorView::Unexpected(name))
            } else {
                match told_apart(options, false, ParsedView::none(), p.rest.drop_first()) {
                    Err(e) => Err(e),
                    Ok(q) => match auth_provider(q.words) {
                        Err(e) => Err(e),
                        Ok(provider) => Ok(
                            if name == "login"@ {
                                AuthCommand::Login {
                                    provider,
                                    headless: q.flags.contains("headless"@),
                                    no_browser: q.flags.contains("no-browser"@),
                                }
                            } else if name == "status"@ {
                                AuthCommand::Status { provider }
                            } else if name == "logout"@ {
                                AuthCommand::Logout { provider }
                            } else {
                                AuthCommand::Token { provider }
                            },
                        ),
                    },
                }
            }
        },
    }
}

/// A command on the configuration.
pub open spec fn config_command(args: Seq<Seq<char>>) -> Result<ConfigCommandView, ArgErrorView> {
    match told_apart(Seq::empty(), true, ParsedView::none(), args) {
        Err(e) => Err(e),
        Ok(p) => if p.words.len() > 0 {
            Err(ArgErrorView::Unexpected(p.words[0]))
        } else if p.rest.len() == 0 {
            Err(ArgErrorView::MissingArgument("COMMAND"@))
        } else if p.rest[0] != "init"@ {
            Err(ArgErrorView::Unexpected(p.rest[0]))
        } else {
            let options = seq![valued("provider"@), valued("model"@), flag("force"@)];
            match told_apart(options, false, ParsedView::none(), p.rest.drop_first()) {
                Err(e) => Err(e),
                Ok(q) => if q.words.len() > 0 {
                    Err(ArgErrorView::Unexpected(q.words[0]))
                } else {
                    let provider = match q.value("provider"@) {
                        Some(name) => provider_named(name),
                        None => Some(ConfigProvider::Anthropic),
                    };
                    match provider {
                        None => Err(
                            ArgErrorView::InvalidValue(
                                "provider"@,
                                q.value("provider"@)->Some_0,
                            ),
                        ),
                        Some(provider) => Ok(
                            ConfigCommandView::Init {
                                provider,
                                model: q.value("model"@),
                                force: q.flags.contains("force"@),
                            },
                        ),
                    }
                },
            }
        },
    }
}

/// Arguments of a command that takes no words.
pub open spec fn without_words(options: Seq<OptionView>, args: Seq<Seq<char>>) -> Result<
    ParsedView,
    ArgErrorView,
> {
    match told_apart(options, false, ParsedView::none(), args) {
        Err(e) => Err(e),
        Ok(p) => if p.words.len() > 0 {
            Err(ArgErrorView::Unexpected(p.words[0]))
        } else {
            Ok(p)
        },
    }
}

/// Whether an option or the end of the arguments closes a run of words that has one word
/// only, where `run` words stand before the arguments. Two hyphens close no run.
pub open spec fn has_lone_word(args: Seq<Seq<char>>, run: nat) -> bool
    decreases args.len(),
{
    if args.len() == 0 {
        run == 1
    } else if args[0] == "--"@ {
        run + args.len() - 1 == 1
    } else if is_value(args[0]) {
        has_lone_word(args.drop_first(), run + 1)
    } else {
        run == 1 || has_lone_word(args.drop_first(), 0)
    }
}

fn lone_word(args: &Vec<String>) -> (r: bool)
    ensures
        r == has_lone_word(texts(args@), 0),
{
    let ghost all = texts(args@);
    let mut run: usize = 0;
    let mut i: usize = 0;
    assert(all.skip(0) =~= all);
    proof {
        reveal_strlit("--");
    }
    while i < args.len()
        invariant
            run <= i <= args@.len(),
            all == texts(args@),
            "--"@.len() == 2,
            "--"@[0] == '-',
            has_lone_word(all.skip(i as int), run as nat) == has_lone_word(all, 0),
        decreases args.len() - i,
    {
        assert(all.skip(i as int)[0] == args@[i as int]@);
        assert(all.skip(i as int).drop_first() =~= all.skip(i + 1));
        let arg = args[i].as_str();
        if text::same(arg, "--") {
            return run + (args.len() - 1 - i) == 1;
        }
        if can_be_value(arg) {
            run = run + 1;
        } else {
            if run == 1 {
                return true;
            }
            run = 0;
        }
        i = i + 1;
    }
    run == 1
}

/// The command within the program that a name and arguments stand for.
pub open spec fn named_command(name: Seq<char>, args: Seq<Seq<char>>) -> Result<
    CliCommandView,
    ArgErrorView,
> {
    if name == "auth"@ {
        match auth_command(args) {
            Err(e) => Err(e),
            Ok(command) => Ok(CliCommandView::Auth { command }),
        }
    } else if name == "doctor"@ {
        match without_words(seq![flag("offline"@)], args) {
            Err(e) => Err(e),
            Ok(p) => Ok(CliCommandView::Doctor { offline: p.flags.contains("offline"@) }),
        }
    } else if name == "tokenizer-fingerprint"@ {
        match told_apart(seq![flag("json"@)], false, ParsedView::none(), args) {
            Err(e) => Err(e),
            Ok(p) => if p.words.len() == 0 || has_lone_word(args, 0) {
                Err(ArgErrorView::MissingArgument("MODELS"@))
            } else {
                Ok(
                    CliCommandView::TokenizerFingerprint {
                        models: p.words,
                        json: p.flags.contains("json"@),
                    },
                )
            },
        }
    } else if name == "config"@ {
        match config_command(args) {
            Err(e) => Err(e),
            Ok(command) => Ok(CliCommandView::Config { command }),
        }
    } else if name == "__sandbox-exec"@ {
        match without_words(seq![valued("workspace"@), valued("command"@)], args) {
            Err(e) => Err(e),
            Ok(p) => match (p.value("workspace"@), p.value("command"@)) {
                (None, _) => Err(ArgErrorView::MissingArgument("workspace"@)),
                (_, None) => Err(ArgErrorView::MissingArgument("command"@)),
                (Some(workspace), Some(command)) => if workspace.len() == 0 {
                    Err(ArgErrorView::InvalidValue("workspace"@, workspace))
                } else {
                    Ok(CliCommandView::SandboxExec { workspace, command })
                },
            },
        }
    } else if name == "__sandbox-probe"@ {
        match without_words(Seq::empty(), args) {
            Err(e) => Err(e),
            Ok(_) => Ok(CliCommandView::SandboxProbe),
        }
    } else {
        Err(ArgErrorView::Unexpected(name))
    }
}

/// What is wrong with the options of the program, if something is.
pub open spec fn option_error(p: ParsedView) -> Option<ArgErrorView> {
    let images = values_of(p.values, "image"@);
    if p.words.len() > 0 {
        Some(ArgErrorView::Unexpected(p.words[0]))
    } else if images.contains(Seq::<char>::empty()) {
        Some(ArgErrorView::InvalidValue("image"@, Seq::empty()))
    } else if p.value("transcript"@) == Some(Seq::<char>::empty()) {
        Some(ArgErrorView::InvalidValue("transcript"@, Seq::empty()))
    } else if p.value("output-format"@) matches Some(name) && format_named(name) is None {
        Some(ArgErrorView::InvalidValue("output-format"@, p.value("output-format"@)->Some_0))
    } else if p.value("print"@) is Some {
        None
    } else if images.len() > 0 {
        Some(ArgErrorView::RequiresPrompt("image"@))
    } else if p.value("output-format"@) is Some {
        Some(ArgErrorView::RequiresPrompt("output-format"@))
    } else if p.value("transcript"@) is Some {
        Some(ArgErrorView::RequiresPrompt("transcript"@))
    } else {
        None
    }
}

/// The command line that the options of the program and a command make.
pub open spec fn command_line(p: ParsedView, command: Option<CliCommandView>) -> CliView {
    CliView {
        command,
        prompt: p.value("print"@),
        image: values_of(p.values, "image"@),
        output_format: match p.value("output-format"@) {
            Some(name) => format_named(name),
            None => None,
        },
        transcript: p.value("transcript"@),
        model: p.value("model"@),
        resume: p.value("resume"@),
        permission_mode: p.value("permission-mode"@),
        trust_project: p.flags.contains("trust-project"@),
        verbose: p.flags.contains("verbose"@),
        debug: p.flags.contains("debug"@),
        tui: p.flags.contains("tui"@),
    }
}

/// The command line that arguments stand for, or what is wrong with them. The first
/// argument is the name of the program.
pub open spec fn cli_of(args: Seq<Seq<char>>) -> Result<CliView, ArgErrorView> {
    match told_apart(
        top_options(),
        true,
        ParsedView::none(),
        if args.len() > 0 {
            args.drop_first()
        } else {
            args
        },
    ) {
        Err(e) => Err(e),
        Ok(p) => match option_error(p) {
            Some(e) => Err(e),
            None => if p.rest.len() == 0 {
                Ok(command_line(p, None))
            } else {
                match named_command(p.rest[0], p.rest.drop_first()) {
                    Err(e) => Err(e),
                    Ok(command) => Ok(command_line(p, Some(command))),
                }
            },
        },
    }
}

/// The outcome of reading arguments.
pub open spec fn cli_view(r: Result<Cli, ArgError>) -> Result<CliView, ArgErrorView> {
    match r {
        Ok(cli) => Ok(cli@),
        Err(e) => Err(e@),
    }
}

fn behind_first(args: &Vec<String>) -> (r: Vec<String>)
    requires
        args@.len() > 0,
    ensures
        texts(r@) == texts(args@).drop_first(),
{
    let ghost all = texts(args@).drop_first();
    let mut out: Vec<String> = Vec::new();
    assert(texts(out@) =~= all.take(0));
    let mut i: usize = 1;
    while i < args.len()
        invariant
            1 <= i <= args@.len(),
            all == texts(args@).drop_first(),
            texts(out@) == all.take(i - 1),
        decreases args.len() - i,
    {
        let ghost before = texts(out@);
        out.push(args[i].clone());
        assert(texts(out@) =~= before.push(all[i - 1]));
        i = i + 1;
        assert(texts(out@) =~= all.take(i - 1));
    }
    assert(all.take(args@.len() - 1) =~= all);
    out
}

fn parse_auth(args: &Vec<String>) -> (r: Result<AuthCommand, ArgError>)
    ensures
        match auth_command(texts(args@)) {
            Ok(c) => r == Ok::<AuthCommand, ArgError>(c),
            Err(e) => r matches Err(x) && x@ == e,
        },
{
    let no_options: Vec<OptionSpec> = Vec::new();
    assert(option_views(no_options@) =~= Seq::empty());
    let p = match tell_apart(&no_options, true, args.as_slice()) {
        Ok(p) => p,
        Err(e) => return Err(e),
    };
    assert(texts(p.words@).len() == p.words@.len());
    assert(texts(p.rest@).len() == p.rest@.len());
    if p.words.len() > 0 {
        assert(texts(p.words@)[0] == p.words@[0]@);
        return Err(ArgError::Unexpected(p.words[0].clone()));
    }
    if p.rest.len() == 0 {
        return Err(ArgError::MissingArgument("COMMAND".to_owned()));
    }
    assert(texts(p.rest@)[0] == p.rest@[0]@);
    let name = p.rest[0].as_str();
    let login = text::same(name, "login");
    let status = text::same(name, "status");
    let logout = text::same(name, "logout");
    let token = text::same(name, "token");
    if !login && !status && !logout && !token {
        return Err(ArgError::Unexpected(name.to_owned()));
    }
    let mut options: Vec<OptionSpec> = Vec::new();
    if login {
        push_flag(&mut options, "headless", None);
        push_flag(&mut options, "no-browser", None);
        assert(option_views(options@) =~= seq![flag("headless"@), flag("no-browser"@)]);
    } else {
        assert(option_views(options@) =~= Seq::empty());
    }
    let rest = behind_first(&p.rest);
    let q = match tell_apart(&options, false, rest.as_slice()) {
        Ok(q) => q,
        Err(e) => return Err(e),
    };
    assert(texts(q.words@).len() == q.words@.len());
    if q.words.len() == 0 {
        return Err(ArgError::MissingArgument("PROVIDER".to_owned()));
    }
    assert(texts(q.words@)[0] == q.words@[0]@);
    if !text::same(q.words[0].as_str(), "openrouter") {
        return Err(ArgError::InvalidValue("PROVIDER".to_owned(), q.words[0].clone()));
    }
    if q.words.len() > 1 {
        assert(texts(q.words@)[1] == q.words@[1]@);
        return Err(ArgError::Unexpected(q.words[1].clone()));
    }
    let provider = AuthProvider::OpenRouter;
    Ok(
        if login {
            AuthCommand::Login {
                provider,
                headless: q.has_flag("headless"),
                no_browser: q.has_flag("no-browser"),
            }
        } else if status {
            AuthCommand::Status { provider }
        } else if logout {
            AuthCommand::Logout { provider }
        } else {
            AuthCommand::Token { provider }
        },
    )
}

fn parse_config(args: &Vec<String>) -> (r: Result<ConfigCommand, ArgError>)
    ensures
        match config_command(texts(args@)) {
            Ok(c) => r matches Ok(x) && x@ == c,
            Err(e) => r matches Err(x) && x@ == e,
        },
{
    let no_options: Vec<OptionSpec> = Vec::new();
    assert(option_views(no_options@) =~= Seq::empty());
    let p = match tell_apart(&no_options, true, args.as_slice()) {
        Ok(p) => p,
        Err(e) => return Err(e),
    };
    assert(texts(p.words@).len() == p.words@.len());
    assert(texts(p.rest@).len() == p.rest@.len());
    if p.words.len() > 0 {
        assert(texts(p.words@)[0] == p.words@[0]@);
        return Err(ArgError::Unexpected(p.words[0].clone()));
    }
    if p.rest.len() == 0 {
        return Err(ArgError::MissingArgument("COMMAND".to_owned()));
    }
    assert(texts(p.rest@)[0] == p.rest@[0]@);
    if !text::same(p.rest[0].as_str(), "init") {
        return Err(ArgError::Unexpected(p.rest[0].clone()));
    }
    let mut options: Vec<OptionSpec> = Vec::new();
    push_valued(&mut options, "provider", None, false);
    push_valued(&mut options, "model", None, false);
    push_flag(&mut options, "force", None);
    assert(option_views(options@) =~= seq![valued("provider"@), valued("model"@), flag("force"@)]);
    let rest = behind_first(&p.rest);
    let q = match tell_apart(&options, false, rest.as_slice()) {
        Ok(q) => q,
        Err(e) => return Err(e),
    };
    assert(texts(q.words@).len() == q.words@.len());
    if q.words.len() > 0 {
        assert(texts(q.words@)[0] == q.words@[0]@);
        return Err(ArgError::Unexpected(q.words[0].clone()));
    }
    let provider = match q.value("provider") {
        Some(name) => if text::same(name.as_str(), "anthropic") {
            ConfigProvider::Anthropic
        } else if text::same(name.as_str(), "openai") {
            ConfigProvider::Openai
        } else if text::same(name.as_str(), "openrouter") {
            ConfigProvider::OpenRouter
        } else if text::same(name.as_str(), "ollama") {
            ConfigProvider::Ollama
        } else {
            return Err(ArgError::InvalidValue("provider".to_owned(), name));
        },
        None => ConfigProvider::Anthropic,
    };
    Ok(ConfigCommand::Init { provider, model: q.value("model"), force: q.has_flag("force") })
}

fn parse_without_words(options: &Vec<OptionSpec>, args: &Vec<String>) -> (r: Result<
    Parsed,
    ArgError,
>)
    ensures
        match without_words(option_views(options@), texts(args@)) {
            Ok(p) => r matches Ok(x) && x@ == p,
            Err(e) => r matches Err(x) && x@ == e,
        },
{
    match tell_apart(options, false, args.as_slice()) {
        Ok(p) => {
            assert(texts(p.words@).len() == p.words@.len());
            if p.words.len() > 0 {
                assert(texts(p.words@)[0] == p.words@[0]@);
                return Err(ArgError::Unexpected(p.words[0].clone()));
            }
            Ok(p)
        },
        Err(e) => Err(e),
    }
}

fn parse_command(name: &str, args: &Vec<String>) -> (r: Result<CliCommand, ArgError>)
    ensures
        match named_command(name@, texts(args@)) {
            Ok(c) => r matches Ok(x) && x@ == c,
            Err(e) => r matches Err(x) && x@ == e,
        },
{
    let mut options: Vec<OptionSpec> = Vec::new();
    assert(option_views(options@) =~= Seq::empty());
    if text::same(name, "auth") {
        return match parse_auth(args) {
            Ok(command) => Ok(CliCommand::Auth { command }),
            Err(e) => Err(e),
        };
    }
    if text::same(name, "doctor") {
        push_flag(&mut options, "offline", None);
        assert(option_views(options@) =~= seq![flag("offline"@)]);
        return match parse_without_words(&options, args) {
            Ok(p) => Ok(CliCommand::Doctor { offline: p.has_flag("offline") }),
            Err(e) => Err(e),
        };
    }
    if text::same(name, "tokenizer-fingerprint") {
        push_flag(&mut options, "json", None);
        assert(option_views(options@) =~= seq![flag("json"@)]);
        return match tell_apart(&options, false, args.as_slice()) {
            Ok(p) => {
                assert(texts(p.words@).len() == p.words@.len());
                if p.words.len() == 0 || lone_word(args) {
                    return Err(ArgError::MissingArgument("MODELS".to_owned()));
                }
                let json = p.has_flag("json");
                Ok(CliCommand::TokenizerFingerprint { models: p.words, json })
            },
            Err(e) => Err(e),
        };
    }
    if text::same(name, "config") {
        return match parse_config(args) {
            Ok(command) => Ok(CliCommand::Config { command }),
            Err(e) => Err(e),
        };
    }
    if text::same(name, "__sandbox-exec") {
        push_valued(&mut options, "workspace", None, false);
        push_valued(&mut options, "command", None, false);
        assert(option_views(options@) =~= seq![valued("workspace"@), valued("command"@)]);
        return match parse_without_words(&options, args) {
            Ok(p) => match (p.value("workspace"), p.value("command")) {
                (None, _) => Err(ArgError::MissingArgument("workspace".to_owned())),
                (_, None) => Err(ArgError::MissingArgument("command".to_owned())),
                (Some(workspace), Some(command)) => if is_empty(workspace.as_str()) {
                    Err(ArgError::InvalidValue("workspace".to_owned(), workspace))
                } else {
                    Ok(CliCommand::SandboxExec { workspace, command })
                },
            },
            Err(e) => Err(e),
        };
    }
    if text::same(name, "__sandbox-probe") {
        return match parse_without_words(&options, args) {
            Ok(_) => Ok(CliCommand::SandboxProbe),
            Err(e) => Err(e),
        };
    }
    Err(ArgError::Unexpected(name.to_owned()))
}

fn is_empty(s: &str) -> (r: bool)
    ensures
        r == (s@.len() == 0),
{
    text::chars_of(s).len() == 0
}

fn has_empty(items: &Vec<String>) -> (r: bool)
    ensures
        r == texts(items@).contains(Seq::<char>::empty()),
{
    let mut i: usize = 0;
    while i < items.len()
        invariant
            i <= items@.len(),
            forall|k: int| 0 <= k < i ==> #[trigger] texts(items@)[k] != Seq::<char>::empty(),
        decreases items.len() - i,
    {
        if is_empty(items[i].as_str()) {
            assert(texts(items@)[i as int] =~= Seq::<char>::empty());
            return true;
        }
        assert(texts(items@)[i as int].len() != 0);
        i = i + 1;
    }
    false
}

fn check_options(p: &Parsed) -> (r: Option<ArgError>)
    ensures
        option_error(p@) == (match r {
            Some(e) => Some(e@),
            None => None,
        }),
{
    let images = all_values(p, "image");
    assert(texts(images@).len() == images@.len());
    assert(texts(p.words@).len() == p.words@.len());
    if p.words.len() > 0 {
        assert(texts(p.words@)[0] == p.words@[0]@);
        return Some(ArgError::Unexpected(p.words[0].clone()));
    }
    if has_empty(&images) {
        return Some(ArgError::InvalidValue("image".to_owned(), String::new()));
    }
    let transcript = p.value("transcript");
    match &transcript {
        Some(path) => if is_empty(path.as_str()) {
            assert(path@ =~= Seq::<char>::empty());
            return Some(ArgError::InvalidValue("transcript".to_owned(), String::new()));
        },
        None => {},
    }
    let format = p.value("output-format");
    match &format {
        Some(name) => if !text::same(name.as_str(), "text") && !text::same(name.as_str(), "json") {
            return Some(ArgError::InvalidValue("output-format".to_owned(), name.clone()));
        },
        None => {},
    }
    if p.value("print").is_some() {
        return None;
    }
    if images.len() > 0 {
        return Some(ArgError::RequiresPrompt("image".to_owned()));
    }
    if format.is_some() {
        return Some(ArgError::RequiresPrompt("output-format".to_owned()));
    }
    if transcript.is_some() {
        return Some(ArgError::RequiresPrompt("transcript".to_owned()));
    }
    None
}

impl Cli {
    /// The command line that arguments stand for, or what is wrong with them. The first
    /// argument is the name of the program.
    pub fn try_parse_from(args: &Vec<String>) -> (r: Result<Cli, ArgError>)
        ensures
            cli_view(r) == cli_of(texts(args@)),
    {
        assert(texts(args@).len() == args@.len());
        let given = if args.len() > 0 {
            behind_first(args)
        } else {
            let none: Vec<String> = Vec::new();
            assert(texts(none@) =~= texts(args@));
            none
        };
        let options = program_options();
        let p = match tell_apart(&options, true, given.as_slice()) {
            Ok(p) => p,
            Err(e) => return Err(e),
        };
        match check_options(&p) {
            Some(e) => return Err(e),
            None => {},
        }
        assert(texts(p.rest@).len() == p.rest@.len());
        let command = if p.rest.len() == 0 {
            None
        } else {
            assert(texts(p.rest@)[0] == p.rest@[0]@);
            let rest = behind_first(&p.rest);
            match parse_command(p.rest[0].as_str(), &rest) {
                Ok(c) => Some(c),
                Err(e) => return Err(e),
            }
        };
        let output_format = match p.value("output-format") {
            Some(name) => if text::same(name.as_str(), "text") {
                Some(OutputFormat::Text)
            } else if text::same(name.as_str(), "json") {
                Some(OutputFormat::Json)
            } else {
                None
            },
            None => None,
        };
        Ok(
            Cli {
                command,
                prompt: p.value("print"),
                image: all_values(&p, "image"),
                output_format,
                transcript: p.value("transcript"),
                model: p.value("model"),
                resume: p.value("resume"),
                permission_mode: p.value("permission-mode"),
                trust_project: p.has_flag("trust-project"),
                verbose: p.has_flag("verbose"),
                debug: p.has_flag("debug"),
                tui: p.has_flag("tui"),
            },
        )
    }
}

/// Options that are only for a prompt are refused without one: images, a form of the
/// answer and a transcript.
pub proof fn law_prompt_options_need_a_prompt(args: Seq<Seq<char>>)
    requires
        cli_of(args) is Ok,
    ensures
        cli_of(args)->Ok_0.prompt is None ==> cli_of(args)->Ok_0.image.len() == 0
            && cli_of(args)->Ok_0.output_format is None && cli_of(args)->Ok_0.transcript is None,
{
}

} // verus!
