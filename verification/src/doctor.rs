//! A report on the configuration and on what the program needs.

use vstd::prelude::*;
use vstd::string::StringExecFns;
use crate::api::error::str_option;
use crate::api::openai_compat::{strip_trailing_slashes, without_trailing_slashes};
use crate::api::types::text_option;
use crate::config::{resolved_views, Config, ProviderKind, ResolvedModel, ResolvedView};
use crate::paths;
use crate::paths::{components, is_absolute, joined_path};
use crate::text;
use crate::text::{decimal, joined, texts};

verus! {

/// How a line of a report is meant.
#[derive(Debug, Clone, Copy, PartialEq, Eq, Structural)]
pub enum Level {
    Good,
    Warning,
    Failure,
}

/// A line of a report.
pub struct ReportLine {
    pub level: Level,
    pub message: String,
}

/// A line of a report as a mathematical object.
pub struct LineView {
    pub level: Level,
    pub message: Seq<char>,
}

impl View for ReportLine {
    type V = LineView;

    open spec fn view(&self) -> LineView {
        LineView { level: self.level, message: self.message@ }
    }
}

/// Lines of a report.
pub open spec fn line_views(lines: Seq<ReportLine>) -> Seq<LineView> {
    lines.map_values(|l: ReportLine| l@)
}

/// A good line.
pub open spec fn good(message: Seq<char>) -> LineView {
    LineView { level: Level::Good, message }
}

/// A line that warns.
pub open spec fn warning(message: Seq<char>) -> LineView {
    LineView { level: Level::Warning, message }
}

/// A line that reports a failure.
pub open spec fn failure(message: Seq<char>) -> LineView {
    LineView { level: Level::Failure, message }
}

/// The form in which a line is shown.
pub open spec fn shown_line(line: LineView) -> Seq<char> {
    match line.level {
        Level::Good => "[ok]   "@ + line.message,
        Level::Warning => "[warn] "@ + line.message,
        Level::Failure => "[fail] "@ + line.message,
    }
}

/// Whether no line reports a failure.
pub open spec fn all_healthy(lines: Seq<LineView>) -> bool {
    forall|i: int| 0 <= i < lines.len() ==> (#[trigger] lines[i]).level != Level::Failure
}

/// The report that lines make.
pub open spec fn report_text(lines: Seq<LineView>) -> Seq<char> {
    let summary = if all_healthy(lines) {
        "claux doctor: ready"@
    } else {
        "claux doctor: action required"@
    };
    summary + "\n\n"@ + joined(lines.map_values(|l: LineView| shown_line(l)), "\n"@) + "\n"@
}

/// A report on the configuration.
pub struct DoctorReport {
    pub text: String,
    pub healthy: bool,
}

/// Collects the lines of a report.
pub struct ReportBuilder {
    lines: Vec<ReportLine>,
}

impl View for ReportBuilder {
    type V = Seq<LineView>;

    closed spec fn view(&self) -> Seq<LineView> {
        line_views(self.lines@)
    }
}

impl ReportBuilder {
    /// A report without lines.
    pub fn new() -> (r: ReportBuilder)
        ensures
            r@ == Seq::<LineView>::empty(),
    {
        let r = ReportBuilder { lines: Vec::new() };
        assert(r@ =~= Seq::empty());
        r
    }

    fn push(&mut self, level: Level, message: String)
        ensures
            final(self)@ == old(self)@.push(LineView { level, message: message@ }),
    {
        let ghost view = LineView { level, message: message@ };
        self.lines.push(ReportLine { level, message });
        assert(self@ =~= old(self)@.push(view));
    }

    /// Adds a good line.
    pub fn ok(&mut self, message: String)
        ensures
            final(self)@ == old(self)@.push(good(message@)),
    {
        self.push(Level::Good, message);
    }

    /// Adds a line that warns.
    pub fn warn(&mut self, message: String)
        ensures
            final(self)@ == old(self)@.push(warning(message@)),
    {
        self.push(Level::Warning, message);
    }

    /// Adds a line that reports a failure.
    pub fn fail(&mut self, message: String)
        ensures
            final(self)@ == old(self)@.push(failure(message@)),
    {
        self.push(Level::Failure, message);
    }

    /// The report. It is healthy where no line reports a failure.
    pub fn finish(self) -> (r: DoctorReport)
        ensures
            r.healthy == all_healthy(self@),
            r.text@ == report_text(self@),
    {
        let ghost all = self@;
        let ghost shown = all.map_values(|l: LineView| shown_line(l));
        let mut healthy = true;
        let mut parts: Vec<String> = Vec::new();
        assert(texts(parts@) =~= shown.take(0));
        let mut i: usize = 0;
        while i < self.lines.len()
            invariant
                i <= self.lines@.len(),
                all == line_views(self.lines@),
                shown == all.map_values(|l: LineView| shown_line(l)),
                healthy <==> (forall|k: int|
                    0 <= k < i ==> (#[trigger] all[k]).level != Level::Failure),
                texts(parts@) == shown.take(i as int),
            decreases self.lines.len() - i,
        {
            let line = &self.lines[i];
            assert(all[i as int] == line@);
            let mark = match line.level {
                Level::Good => "[ok]   ",
                Level::Warning => "[warn] ",
                Level::Failure => {
                    healthy = false;
                    "[fail] "
                },
            };
            let mut part = mark.to_owned();
            part.append(line.message.as_str());
            let ghost before = texts(parts@);
            parts.push(part);
            assert(texts(parts@) =~= before.push(shown[i as int]));
            i = i + 1;
            assert(texts(parts@) =~= shown.take(i as int));
        }
        assert(shown.take(self.lines@.len() as int) =~= shown);
        let body = text::join(parts.as_slice(), "\n");
        let summary = if healthy {
            "claux doctor: ready"
        } else {
            "claux doctor: action required"
        };
        let mut out = summary.to_owned();
        out.append("\n\n");
        out.append(body.as_str());
        out.append("\n");
        DoctorReport { text: out, healthy }
    }
}

/// A command that something configured runs.
pub struct ToolCommand {
    pub name: String,
    pub command: String,
    pub available: bool,
}

/// What was found out about the system.
pub struct Findings {
    pub config_path: String,
    pub config_exists: bool,
    pub config_read_only: bool,
    /// Whether the threshold for compaction lies between zero and one.
    pub threshold_in_range: bool,
    pub git: bool,
    pub ripgrep: bool,
    /// The commands of the servers of tools.
    pub servers: Vec<ToolCommand>,
    /// The commands of the plugins.
    pub plugins: Vec<ToolCommand>,
    /// Whether there is a key for each of the models to check.
    pub keys: Vec<bool>,
    pub offline: bool,
    /// What each provider that is ready answered: its status, or an error.
    pub answers: Vec<Result<String, String>>,
}

/// The line on the configuration file.
pub open spec fn config_lines(f: Findings) -> Seq<LineView> {
    if f.config_exists {
        let found = good("configuration: "@ + f.config_path@);
        if f.config_read_only {
            seq![found, warning("configuration file is read-only"@)]
        } else {
            seq![found]
        }
    } else {
        seq![
            warning(
                "configuration: "@ + f.config_path@
                    + " does not exist (run `claux config init`)"@,
            ),
        ]
    }
}

/// The models that can be chosen, none where they do not resolve.
pub open spec fn chosen_models(config: Config) -> Seq<ResolvedView> {
    match config.selectable() {
        Ok(models) => models,
        Err(_) => Seq::empty(),
    }
}

/// The lines on the models.
pub open spec fn model_lines(config: Config, f: Findings) -> Seq<LineView> {
    let models = match config.selectable() {
        Ok(models) => if models.len() > 0 {
            seq![good("models configured: "@ + decimal(models.len()))]
        } else {
            seq![failure("no models configured"@)]
        },
        Err(e) => seq![failure("model configuration: "@ + e)],
    };
    if f.threshold_in_range {
        models
    } else {
        models.push(failure("auto_compact_threshold must be between 0 and 1"@))
    }
}

/// The lines on the programs that are used.
pub open spec fn program_lines(f: Findings) -> Seq<LineView> {
    seq![
        if f.git {
            good("git executable found"@)
        } else {
            warning("git executable not found; context and checkpoints are limited"@)
        },
        if f.ripgrep {
            good("ripgrep executable found"@)
        } else {
            warning("ripgrep executable not found; initial repository context is limited"@)
        },
    ]
}

/// The line on a command.
pub open spec fn command_line(kind: Seq<char>, c: ToolCommand) -> LineView {
    if c.available {
        good(kind + " command found: "@ + c.name@ + " ("@ + c.command@ + ")"@)
    } else {
        failure(kind + " command not found: "@ + c.name@ + " ("@ + c.command@ + ")"@)
    }
}

/// The lines on commands.
pub open spec fn command_lines(kind: Seq<char>, commands: Seq<ToolCommand>) -> Seq<LineView> {
    commands.map_values(|c: ToolCommand| command_line(kind, c))
}

/// The first model of each provider.
pub open spec fn one_per_provider(models: Seq<ResolvedView>) -> Seq<ResolvedView>
    decreases models.len(),
{
    if models.len() == 0 {
        Seq::empty()
    } else {
        let before = one_per_provider(models.drop_last());
        let provider = models.last().binding.provider;
        if exists|i: int|
            0 <= i < models.len() - 1 && (#[trigger] models[i]).binding.provider == provider {
            before
        } else {
            before.push(models.last())
        }
    }
}

/// What a model is called in the report.
pub open spec fn label(m: ResolvedView) -> Seq<char> {
    m.binding.display_name + " ("@ + m.binding.provider_name + ")"@
}

/// The line on the key of a model.
pub open spec fn key_line(m: ResolvedView, has_key: bool) -> LineView {
    if has_key {
        good("authentication: "@ + label(m) + " key resolved"@)
    } else if m.needs_key() {
        failure("authentication: "@ + label(m) + " requires "@ + m.binding.api_key_env)
    } else {
        good("authentication: "@ + label(m) + " uses no API key"@)
    }
}

/// The lines on the keys of models.
pub open spec fn key_lines(models: Seq<ResolvedView>, keys: Seq<bool>) -> Seq<LineView> {
    Seq::new(models.len(), |i: int| key_line(models[i], keys[i]))
}

/// The models whose providers can be asked.
pub open spec fn ready_models(models: Seq<ResolvedView>, keys: Seq<bool>) -> Seq<ResolvedView>
    decreases models.len(),
{
    if models.len() == 0 || keys.len() == 0 {
        Seq::empty()
    } else {
        let before = ready_models(models.drop_last(), keys.drop_last());
        if keys.last() || !models.last().needs_key() {
            before.push(models.last())
        } else {
            before
        }
    }
}

/// The line on what a provider answered.
pub open spec fn answer_line(m: ResolvedView, answer: Result<String, String>) -> LineView {
    match answer {
        Ok(status) => good("provider connectivity: "@ + label(m) + ": HTTP "@ + status@),
        Err(e) => failure("provider connectivity: "@ + label(m) + ": "@ + e@),
    }
}

/// The lines on what providers answered.
pub open spec fn answer_lines(
    models: Seq<ResolvedView>,
    answers: Seq<Result<String, String>>,
    offline: bool,
) -> Seq<LineView> {
    if offline {
        seq![warning("provider connectivity: skipped (--offline)"@)]
    } else {
        Seq::new(models.len(), |i: int| answer_line(models[i], answers[i]))
    }
}

/// The line on the trust in the project.
pub open spec fn trust_line(config: Config) -> LineView {
    good(
        "current project: "@ + match config.project_trust {
            Some(t) => if t.trusts() {
                "trusted"@
            } else {
                "untrusted (project commands and permission loosening are blocked)"@
            },
            None => "not resolved"@,
        },
    )
}

/// The models whose providers the report is on.
pub open spec fn checked_models(config: Config) -> Seq<ResolvedView> {
    one_per_provider(chosen_models(config))
}

/// Whether what was found out covers the models of the configuration.
pub open spec fn covers(f: Findings, config: Config) -> bool {
    &&& f.keys@.len() == checked_models(config).len()
    &&& !f.offline ==> f.answers@.len() == ready_models(checked_models(config), f.keys@).len()
}

/// The lines of the report.
pub open spec fn doctor_lines(config: Config, f: Findings) -> Seq<LineView> {
    let checked = checked_models(config);
    config_lines(f) + model_lines(config, f) + program_lines(f) + command_lines("MCP"@, f.servers@)
        + command_lines("hook"@, f.plugins@) + key_lines(checked, f.keys@) + answer_lines(
        ready_models(checked, f.keys@),
        f.answers@,
        f.offline,
    ) + seq![trust_line(config)]
}

fn seen_before(models: &Vec<ResolvedModel>, n: usize) -> (r: bool)
    requires
        n < models@.len(),
    ensures
        r == exists|i: int|
            0 <= i < n && (#[trigger] resolved_views(models@)[i]).binding.provider
                == models@[n as int]@.binding.provider,
{
    let mut i: usize = 0;
    while i < n
        invariant
            i <= n,
            n < models@.len(),
            forall|k: int|
                0 <= k < i ==> (#[trigger] resolved_views(models@)[k]).binding.provider
                    != models@[n as int]@.binding.provider,
        decreases n - i,
    {
        assert(resolved_views(models@)[i as int] == models@[i as int]@);
        if text::same(
            models[i].binding.provider.as_str(),
            models[n].binding.provider.as_str(),
        ) {
            return true;
        }
        i = i + 1;
    }
    false
}

/// The models whose providers the report is on: the first of each provider.
pub fn models_to_check(config: &Config) -> (r: Vec<ResolvedModel>)
    ensures
        resolved_views(r@) == checked_models(*config),
{
    let mut out: Vec<ResolvedModel> = Vec::new();
    assert(resolved_views(out@) =~= Seq::empty());
    let models = match config.selectable_models() {
        Ok(models) => models,
        Err(_) => return out,
    };
    let ghost all = resolved_views(models@);
    assert(all.take(0) =~= Seq::empty());
    let mut i: usize = 0;
    while i < models.len()
        invariant
            i <= models@.len(),
            all == resolved_views(models@),
            resolved_views(out@) == one_per_provider(all.take(i as int)),
        decreases models.len() - i,
    {
        let ghost part = all.take(i + 1);
        assert(part.drop_last() =~= all.take(i as int));
        assert(part.last() == models@[i as int]@);
        let repeated = seen_before(&models, i);
        assert(repeated <==> exists|k: int|
            0 <= k < part.len() - 1 && (#[trigger] part[k]).binding.provider
                == part.last().binding.provider) by {
            if repeated {
                let k = choose|k: int|
                    0 <= k < i && (#[trigger] all[k]).binding.provider
                        == models@[i as int]@.binding.provider;
                assert(part[k] == all[k]);
            }
            if exists|k: int|
                0 <= k < part.len() - 1 && (#[trigger] part[k]).binding.provider
                    == part.last().binding.provider {
                let k = choose|k: int|
                    0 <= k < part.len() - 1 && (#[trigger] part[k]).binding.provider
                        == part.last().binding.provider;
                assert(all[k] == part[k]);
            }
        }
        if !repeated {
            let ghost before = resolved_views(out@);
            out.push(models[i].duplicate());
            assert(resolved_views(out@) =~= before.push(models@[i as int]@));
        }
        i = i + 1;
    }
    assert(all.take(models@.len() as int) =~= all);
    out
}

/// The places of the models whose providers can be asked, given which have a key.
pub fn ready_to_ask(models: &Vec<ResolvedModel>, keys: &Vec<bool>) -> (r: Vec<usize>)
    requires
        models@.len() == keys@.len(),
    ensures
        forall|k: int| 0 <= k < r@.len() ==> #[trigger] r@[k] < models@.len(),
        r@.map_values(|k: usize| models@[k as int]@) == ready_models(
            resolved_views(models@),
            keys@,
        ),
{
    let ghost all = resolved_views(models@);
    let mut out: Vec<usize> = Vec::new();
    assert(out@.map_values(|k: usize| models@[k as int]@) =~= ready_models(
        all.take(0),
        keys@.take(0),
    ));
    let mut i: usize = 0;
    while i < models.len()
        invariant
            i <= models@.len(),
            models@.len() == keys@.len(),
            all == resolved_views(models@),
            forall|k: int| 0 <= k < out@.len() ==> #[trigger] out@[k] < models@.len(),
            out@.map_values(|k: usize| models@[k as int]@) == ready_models(
                all.take(i as int),
                keys@.take(i as int),
            ),
        decreases models.len() - i,
    {
        assert(all.take(i + 1).drop_last() =~= all.take(i as int));
        assert(keys@.take(i + 1).drop_last() =~= keys@.take(i as int));
        assert(all.take(i + 1).last() == models@[i as int]@);
        if keys[i] || !models[i].requires_api_key() {
            let ghost before = out@.map_values(|k: usize| models@[k as int]@);
            out.push(i);
            assert(out@.map_values(|k: usize| models@[k as int]@) =~= before.push(
                models@[i as int]@,
            ));
        }
        i = i + 1;
    }
    assert(all.take(models@.len() as int) =~= all);
    assert(keys@.take(models@.len() as int) =~= keys@);
    out
}

fn label_of(m: &ResolvedModel) -> (r: String)
    ensures
        r@ == label(m@),
{
    let mut out = m.binding.display_name.clone();
    out.append(" (");
    out.append(m.binding.provider_name.as_str());
    out.append(")");
    out
}

fn report_config(report: &mut ReportBuilder, f: &Findings)
    ensures
        final(report)@ == old(report)@ + config_lines(*f),
{
    let ghost start = report@;
    let mut message = "configuration: ".to_owned();
    message.append(f.config_path.as_str());
    if f.config_exists {
        report.ok(message);
        if f.config_read_only {
            report.warn("configuration file is read-only".to_owned());
        }
    } else {
        message.append(" does not exist (run `claux config init`)");
        report.warn(message);
    }
    assert(report@ =~= start + config_lines(*f));
}

fn report_models(report: &mut ReportBuilder, config: &Config, f: &Findings)
    ensures
        final(report)@ == old(report)@ + model_lines(*config, *f),
{
    let ghost start = report@;
    match config.selectable_models() {
        Ok(models) => {
            assert(resolved_views(models@).len() == models@.len());
            if models.len() > 0 {
                let mut message = "models configured: ".to_owned();
                text::push_decimal(&mut message, models.len() as u64);
                report.ok(message);
            } else {
                report.fail("no models configured".to_owned());
            }
        },
        Err(e) => {
            let mut message = "model configuration: ".to_owned();
            message.append(e.as_str());
            report.fail(message);
        },
    }
    if !f.threshold_in_range {
        report.fail("auto_compact_threshold must be between 0 and 1".to_owned());
    }
    assert(report@ =~= start + model_lines(*config, *f));
}

fn report_programs(report: &mut ReportBuilder, f: &Findings)
    ensures
        final(report)@ == old(report)@ + program_lines(*f),
{
    let ghost start = report@;
    if f.git {
        report.ok("git executable found".to_owned());
    } else {
        report.warn("git executable not found; context and checkpoints are limited".to_owned());
    }
    if f.ripgrep {
        report.ok("ripgrep executable found".to_owned());
    } else {
        report.warn(
            "ripgrep executable not found; initial repository context is limited".to_owned(),
        );
    }
    assert(report@ =~= start + program_lines(*f));
}

fn report_commands(report: &mut ReportBuilder, kind: &str, commands: &Vec<ToolCommand>)
    ensures
        final(report)@ == old(report)@ + command_lines(kind@, commands@),
{
    let ghost start = report@;
    let ghost all = command_lines(kind@, commands@);
    assert(start + all.take(0) =~= start);
    let mut i: usize = 0;
    while i < commands.len()
        invariant
            i <= commands@.len(),
            all == command_lines(kind@, commands@),
            report@ == start + all.take(i as int),
        decreases commands.len() - i,
    {
        let c = &commands[i];
        let mut message = kind.to_owned();
        if c.available {
            message.append(" command found: ");
        } else {
            message.append(" command not found: ");
        }
        message.append(c.name.as_str());
        message.append(" (");
        message.append(c.command.as_str());
        message.append(")");
        if c.available {
            report.ok(message);
        } else {
            report.fail(message);
        }
        i = i + 1;
        assert(report@ =~= start + all.take(i as int));
    }
    assert(all.take(commands@.len() as int) =~= all);
}

fn report_keys(report: &mut ReportBuilder, models: &Vec<ResolvedModel>, keys: &Vec<bool>)
    requires
        models@.len() == keys@.len(),
    ensures
        final(report)@ == old(report)@ + key_lines(resolved_views(models@), keys@),
{
    let ghost start = report@;
    let ghost all = key_lines(resolved_views(models@), keys@);
    assert(start + all.take(0) =~= start);
    let mut i: usize = 0;
    while i < models.len()
        invariant
            i <= models@.len(),
            models@.len() == keys@.len(),
            all == key_lines(resolved_views(models@), keys@),
            report@ == start + all.take(i as int),
        decreases models.len() - i,
    {
        let m = &models[i];
        let name = label_of(m);
        let mut message = "authentication: ".to_owned();
        message.append(name.as_str());
        if keys[i] {
            message.append(" key resolved");
            report.ok(message);
        } else if m.requires_api_key() {
            message.append(" requires ");
            message.append(m.binding.api_key_env.as_str());
            report.fail(message);
        } else {
            message.append(" uses no API key");
            report.ok(message);
        }
        i = i + 1;
        assert(report@ =~= start + all.take(i as int));
    }
    assert(all.take(models@.len() as int) =~= all);
}

fn report_answers(
    report: &mut ReportBuilder,
    models: &Vec<ResolvedModel>,
    ready: &Vec<usize>,
    answers: &Vec<Result<String, String>>,
)
    requires
        ready@.len() == answers@.len(),
        forall|k: int| 0 <= k < ready@.len() ==> #[trigger] ready@[k] < models@.len(),
    ensures
        final(report)@ == old(report)@ + answer_lines(
            ready@.map_values(|k: usize| models@[k as int]@),
            answers@,
            false,
        ),
{
    let ghost start = report@;
    let ghost all = answer_lines(
        ready@.map_values(|k: usize| models@[k as int]@),
        answers@,
        false,
    );
    assert(start + all.take(0) =~= start);
    let mut i: usize = 0;
    while i < ready.len()
        invariant
            i <= ready@.len(),
            ready@.len() == answers@.len(),
            forall|k: int| 0 <= k < ready@.len() ==> #[trigger] ready@[k] < models@.len(),
            all == answer_lines(
                ready@.map_values(|k: usize| models@[k as int]@),
                answers@,
                false,
            ),
            report@ == start + all.take(i as int),
        decreases ready.len() - i,
    {
        let name = label_of(&models[ready[i]]);
        let mut message = "provider connectivity: ".to_owned();
        message.append(name.as_str());
        match &answers[i] {
            Ok(status) => {
                message.append(": HTTP ");
                message.append(status.as_str());
                report.ok(message);
            },
            Err(e) => {
                message.append(": ");
                message.append(e.as_str());
                report.fail(message);
            },
        }
        i = i + 1;
        assert(report@ =~= start + all.take(i as int));
    }
    assert(all.take(ready@.len() as int) =~= all);
}

/// A report on the configuration, given what was found out about the system.
pub fn doctor(config: &Config, f: &Findings) -> (r: DoctorReport)
    requires
        covers(*f, *config),
    ensures
        r.text@ == report_text(doctor_lines(*config, *f)),
        r.healthy == all_healthy(doctor_lines(*config, *f)),
{
    let mut report = ReportBuilder::new();
    report_config(&mut report, f);
    assert(report@ =~= config_lines(*f));
    report_models(&mut report, config, f);
    report_programs(&mut report, f);
    report_commands(&mut report, "MCP", &f.servers);
    report_commands(&mut report, "hook", &f.plugins);
    let models = models_to_check(config);
    assert(resolved_views(models@).len() == models@.len());
    report_keys(&mut report, &models, &f.keys);
    if f.offline {
        let ghost before = report@;
        report.warn("provider connectivity: skipped (--offline)".to_owned());
        assert(report@ =~= before + answer_lines(
            ready_models(checked_models(*config), f.keys@),
            f.answers@,
            true,
        ));
    } else {
        let ready = ready_to_ask(&models, &f.keys);
        assert(ready@.map_values(|k: usize| models@[k as int]@).len() == ready@.len());
        report_answers(&mut report, &models, &ready, &f.answers);
    }
    let trust = match &config.project_trust {
        Some(t) => if t.is_trusted() {
            "trusted"
        } else {
            "untrusted (project commands and permission loosening are blocked)"
        },
        None => "not resolved",
    };
    let mut message = "current project: ".to_owned();
    message.append(trust);
    let ghost before = report@;
    report.ok(message);
    assert(report@ =~= before + seq![trust_line(*config)]);
    report.finish()
}

/// A provider that cannot be used without a key that is missing makes the report
/// unhealthy.
pub proof fn law_missing_key_reported(config: Config, f: Findings, i: int)
    requires
        covers(f, config),
        0 <= i < checked_models(config).len(),
        checked_models(config)[i].needs_key(),
        !f.keys@[i],
    ensures
        !all_healthy(doctor_lines(config, f)),
{
    let checked = checked_models(config);
    let keys = key_lines(checked, f.keys@);
    let before = config_lines(f) + model_lines(config, f) + program_lines(f) + command_lines(
        "MCP"@,
        f.servers@,
    ) + command_lines("hook"@, f.plugins@);
    let lines = doctor_lines(config, f);
    let k = before.len() + i;
    assert(lines[k] == keys[i]);
    assert(lines[k].level == Level::Failure);
}

/// A request that asks a provider whether it is there.
pub struct StatusRequest {
    pub url: String,
    /// The key as Anthropic takes it.
    pub x_api_key: Option<String>,
    /// The key as other providers take it, and the token of a login as Anthropic takes it.
    pub bearer: Option<String>,
}

/// The request that asks the provider of a model whether it is there, or why it cannot be
/// asked, given its key and the token of a login with Anthropic, which serves where there
/// is no key.
pub fn status_request(model: &ResolvedModel, api_key: Option<&str>, token: Option<&str>) -> (r:
    Result<StatusRequest, String>)
    ensures
        match model@.binding.provider_kind {
            ProviderKind::Anthropic => match (api_key, model@.login_token(str_option(token))) {
                (Some(key), _) => r matches Ok(q) && q.url@
                    == "https://api.anthropic.com/v1/models?limit=1"@ && text_option(q.x_api_key)
                    == Some(key@) && q.bearer is None,
                (None, Some(login)) => r matches Ok(q) && q.url@
                    == "https://api.anthropic.com/v1/models?limit=1"@ && q.x_api_key is None
                    && text_option(q.bearer) == Some(login),
                (None, None) => r matches Err(e) && e@ == "API key is missing"@,
            },
            ProviderKind::Openai => match model@.binding.base_url {
                Some(base) => r matches Ok(q) && q.url@ == without_trailing_slashes(base)
                    + "/models"@ && text_option(q.bearer) == str_option(api_key) && q.x_api_key
                    is None,
                None => r matches Err(e) && e@ == "OpenAI-compatible base URL is missing"@,
            },
        },
{
    match model.binding.provider_kind {
        ProviderKind::Anthropic => match api_key {
            Some(key) => Ok(
                StatusRequest {
                    url: "https://api.anthropic.com/v1/models?limit=1".to_owned(),
                    x_api_key: Some(key.to_owned()),
                    bearer: None,
                },
            ),
            None => match token {
                Some(token) => if token.unicode_len() > 0 {
                    Ok(
                        StatusRequest {
                            url: "https://api.anthropic.com/v1/models?limit=1".to_owned(),
                            x_api_key: None,
                            bearer: Some(token.to_owned()),
                        },
                    )
                } else {
                    Err("API key is missing".to_owned())
                },
                None => Err("API key is missing".to_owned()),
            },
        },
        ProviderKind::Openai => match &model.binding.base_url {
            Some(base) => {
                let mut url = strip_trailing_slashes(base.as_str()).to_owned();
                url.append("/models");
                let bearer = match api_key {
                    Some(key) => Some(key.to_owned()),
                    None => None,
                };
                Ok(StatusRequest { url, x_api_key: None, bearer })
            },
            None => Err("OpenAI-compatible base URL is missing".to_owned()),
        },
    }
}

/// The files that a command may be: the one that it names where it has more than one
/// component, else one of its name in each directory of the search path.
pub open spec fn executables(command: Seq<char>, directories: Seq<Seq<char>>) -> Seq<Seq<char>> {
    let root: nat = if is_absolute(command) {
        1
    } else {
        0
    };
    if components(command).len() + root > 1 {
        seq![command]
    } else {
        directories.map_values(|d: Seq<char>| joined_path(d, command))
    }
}

/// The files that a command may be.
pub fn executable_candidates(command: &str, directories: &Vec<String>) -> (r: Vec<String>)
    ensures
        texts(r@) == executables(command@, texts(directories@)),
{
    let parts = paths::split_path(command);
    assert(texts(parts@).len() == parts@.len());
    let mut out: Vec<String> = Vec::new();
    let named = parts.len() > 1 || (parts.len() == 1 && paths::absolute(command));
    if named {
        out.push(command.to_owned());
        assert(texts(out@) =~= seq![command@]);
        return out;
    }
    let ghost all = texts(directories@).map_values(|d: Seq<char>| joined_path(d, command@));
    assert(texts(out@) =~= all.take(0));
    let mut i: usize = 0;
    while i < directories.len()
        invariant
            i <= directories@.len(),
            all == texts(directories@).map_values(|d: Seq<char>| joined_path(d, command@)),
            texts(out@) == all.take(i as int),
        decreases directories.len() - i,
    {
        let ghost before = texts(out@);
        out.push(paths::join(directories[i].as_str(), command));
        assert(texts(out@) =~= before.push(all[i as int]));
        i = i + 1;
        assert(texts(out@) =~= all.take(i as int));
    }
    assert(all.take(directories@.len() as int) =~= all);
    out
}

} // verus!
