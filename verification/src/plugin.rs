//! Plugins: commands that run at a trigger and may add context.

use vstd::prelude::*;
use vstd::string::{StrSliceExecFns, StringExecFns};
use crate::api::diagnostics::{decode_lossy, lossy_text};
use crate::api::types::text_option;
use crate::config::{HookTrigger, PluginConfig};
use crate::text;
use crate::text::{joined, texts, trimmed};

verus! {

/// How many milliseconds a plugin may take.
pub const HOOK_TIMEOUT_MS: u64 = 10000;

/// How many bytes of the output of a plugin are kept.
pub const HOOK_OUTPUT_LIMIT: usize = 65536;

/// A plugin that runs a command and captures its output.
pub struct CommandPlugin {
    name: String,
    command: String,
    args: Vec<String>,
    trigger: HookTrigger,
    timeout_ms: u64,
}

/// A plugin as a mathematical object.
pub struct PluginView {
    pub name: Seq<char>,
    pub command: Seq<char>,
    pub args: Seq<Seq<char>>,
    pub trigger: HookTrigger,
    pub timeout_ms: u64,
}

impl View for CommandPlugin {
    type V = PluginView;

    closed spec fn view(&self) -> PluginView {
        PluginView {
            name: self.name@,
            command: self.command@,
            args: texts(self.args@),
            trigger: self.trigger,
            timeout_ms: self.timeout_ms,
        }
    }
}

fn copy_texts(items: &[String]) -> (r: Vec<String>)
    ensures
        texts(r@) == texts(items@),
{
    let ghost all = texts(items@);
    let mut out: Vec<String> = Vec::new();
    assert(texts(out@) =~= all.take(0));
    let mut i: usize = 0;
    while i < items.len()
        invariant
            i <= items@.len(),
            all == texts(items@),
            texts(out@) == all.take(i as int),
        decreases items.len() - i,
    {
        let ghost before = texts(out@);
        out.push(items[i].clone());
        assert(texts(out@) =~= before.push(all[i as int]));
        i = i + 1;
        assert(texts(out@) =~= all.take(i as int));
    }
    assert(all.take(items@.len() as int) =~= all);
    out
}

/// The context that a finished plugin gives: what it printed, trimmed, where it succeeded
/// and printed something.
pub open spec fn contribution(success: bool, stdout: Seq<u8>) -> Option<Seq<char>> {
    let printed = trimmed(lossy_text(stdout));
    if success && printed.len() > 0 {
        Some(printed)
    } else {
        None
    }
}

impl CommandPlugin {
    /// A plugin that runs a command.
    pub fn new(name: &str, command: &str, args: &[String], trigger: HookTrigger) -> (r:
        CommandPlugin)
        ensures
            r@ == (PluginView {
                name: name@,
                command: command@,
                args: texts(args@),
                trigger,
                timeout_ms: HOOK_TIMEOUT_MS,
            }),
    {
        CommandPlugin {
            name: name.to_owned(),
            command: command.to_owned(),
            args: copy_texts(args),
            trigger,
            timeout_ms: HOOK_TIMEOUT_MS,
        }
    }

    /// The name.
    pub fn name(&self) -> (r: &str)
        ensures
            r@ == self@.name,
    {
        self.name.as_str()
    }

    /// The command that is run.
    pub fn command(&self) -> (r: &str)
        ensures
            r@ == self@.command,
    {
        self.command.as_str()
    }

    /// The arguments of the command.
    pub fn args(&self) -> (r: &Vec<String>)
        ensures
            texts(r@) == self@.args,
    {
        &self.args
    }

    /// The trigger.
    pub fn trigger(&self) -> (r: &HookTrigger)
        ensures
            *r == self@.trigger,
    {
        &self.trigger
    }

    /// How many milliseconds the plugin may take.
    pub fn timeout_ms(&self) -> (r: u64)
        ensures
            r == self@.timeout_ms,
    {
        self.timeout_ms
    }

    /// The plugin with another time limit.
    pub fn with_timeout(self, timeout_ms: u64) -> (r: CommandPlugin)
        ensures
            r@ == (PluginView { timeout_ms, ..self@ }),
    {
        CommandPlugin {
            name: self.name,
            command: self.command,
            args: self.args,
            trigger: self.trigger,
            timeout_ms,
        }
    }
}

/// The context that a finished plugin gives.
pub fn plugin_output(success: bool, stdout: &[u8]) -> (r: Option<String>)
    ensures
        text_option(r) == contribution(success, stdout@),
{
    if !success {
        return None;
    }
    let printed = decode_lossy(stdout);
    let context = text::trim(printed.as_str());
    if context.unicode_len() == 0 {
        None
    } else {
        Some(context.to_owned())
    }
}

/// Output with more behind it, up to the limit.
pub open spec fn limited(output: Seq<u8>, chunk: Seq<u8>) -> Seq<u8> {
    let room = if output.len() < HOOK_OUTPUT_LIMIT {
        HOOK_OUTPUT_LIMIT - output.len()
    } else {
        0
    };
    if chunk.len() <= room {
        output + chunk
    } else {
        output + chunk.take(room)
    }
}

/// Adds output, up to the limit; what is over it is dropped.
pub fn keep_output(output: &mut Vec<u8>, chunk: &[u8])
    ensures
        final(output)@ == limited(old(output)@, chunk@),
{
    let room: usize = if output.len() < HOOK_OUTPUT_LIMIT {
        HOOK_OUTPUT_LIMIT - output.len()
    } else {
        0
    };
    let n: usize = if chunk.len() <= room {
        chunk.len()
    } else {
        room
    };
    let ghost start = output@;
    let mut i: usize = 0;
    assert(start + chunk@.take(0) =~= start);
    while i < n
        invariant
            i <= n,
            n <= chunk@.len(),
            output@ == start + chunk@.take(i as int),
        decreases n - i,
    {
        output.push(chunk[i]);
        i = i + 1;
        assert(output@ =~= start + chunk@.take(i as int));
    }
    assert(chunk@.take(chunk@.len() as int) =~= chunk@);
}

/// Output that is read in pieces is what comes first of it all, up to the limit.
pub proof fn law_output_is_capped(a: Seq<u8>, b: Seq<u8>, c: Seq<u8>)
    requires
        a.len() <= HOOK_OUTPUT_LIMIT,
    ensures
        limited(a, b).len() <= HOOK_OUTPUT_LIMIT,
        limited(limited(a, b), c) == limited(a, b + c),
{
    assert(limited(limited(a, b), c) =~= limited(a, b + c));
}

/// The plugins of a session.
pub struct PluginRegistry {
    plugins: Vec<CommandPlugin>,
}

/// The plugins that run at a trigger, by their places.
pub open spec fn places_of(plugins: Seq<PluginView>, trigger: HookTrigger) -> Seq<int>
    decreases plugins.len(),
{
    if plugins.len() == 0 {
        Seq::empty()
    } else {
        let before = places_of(plugins.drop_last(), trigger);
        if plugins.last().trigger == trigger {
            before.push(plugins.len() - 1)
        } else {
            before
        }
    }
}

impl View for PluginRegistry {
    type V = Seq<PluginView>;

    closed spec fn view(&self) -> Seq<PluginView> {
        self.plugins@.map_values(|p: CommandPlugin| p@)
    }
}

impl Default for PluginRegistry {
    fn default() -> (r: PluginRegistry)
        ensures
            r@ == Seq::<PluginView>::empty(),
    {
        PluginRegistry::new()
    }
}

impl PluginRegistry {
    /// No plugins.
    pub fn new() -> (r: PluginRegistry)
        ensures
            r@ == Seq::<PluginView>::empty(),
    {
        let r = PluginRegistry { plugins: Vec::new() };
        assert(r@ =~= Seq::empty());
        r
    }

    /// Adds a plugin.
    pub fn add(&mut self, plugin: CommandPlugin)
        ensures
            final(self)@ == old(self)@.push(plugin@),
    {
        let ghost view = plugin@;
        self.plugins.push(plugin);
        assert(self@ =~= old(self)@.push(view));
    }

    /// The plugins that are configured.
    pub fn from_config(configs: &Vec<PluginConfig>) -> (r: PluginRegistry)
        ensures
            r@ == configured(configs@),
    {
        let mut registry = PluginRegistry::new();
        let ghost all = configured(configs@);
        assert(registry@ =~= all.take(0));
        let mut i: usize = 0;
        while i < configs.len()
            invariant
                i <= configs@.len(),
                all == configured(configs@),
                registry@ == all.take(i as int),
            decreases configs.len() - i,
        {
            let c = &configs[i];
            registry.add(
                CommandPlugin::new(
                    c.name.as_str(),
                    c.command.as_str(),
                    c.args.as_slice(),
                    c.trigger,
                ),
            );
            i = i + 1;
            assert(registry@ =~= all.take(i as int));
        }
        assert(all.take(configs@.len() as int) =~= all);
        registry
    }

    /// Whether there are no plugins.
    pub fn is_empty(&self) -> (r: bool)
        ensures
            r == (self@.len() == 0),
    {
        self.plugins.len() == 0
    }

    /// How many plugins there are.
    pub fn len(&self) -> (r: usize)
        ensures
            r == self@.len(),
    {
        self.plugins.len()
    }

    /// A plugin by its place.
    pub fn at(&self, place: usize) -> (r: &CommandPlugin)
        requires
            place < self@.len(),
        ensures
            r@ == self@[place as int],
    {
        &self.plugins[place]
    }

    /// The plugins that run at a trigger, by their places.
    pub fn matching(&self, trigger: &HookTrigger) -> (r: Vec<usize>)
        ensures
            r@.map_values(|k: usize| k as int) == places_of(self@, *trigger),
            forall|k: int| 0 <= k < r@.len() ==> #[trigger] r@[k] < self@.len(),
    {
        let ghost all = self@;
        let mut out: Vec<usize> = Vec::new();
        assert(out@.map_values(|k: usize| k as int) =~= places_of(all.take(0), *trigger));
        let mut i: usize = 0;
        while i < self.plugins.len()
            invariant
                i <= self.plugins@.len(),
                all == self@,
                all.len() == self.plugins@.len(),
                out@.map_values(|k: usize| k as int) == places_of(all.take(i as int), *trigger),
                forall|k: int| 0 <= k < out@.len() ==> #[trigger] out@[k] < all.len(),
            decreases self.plugins.len() - i,
        {
            assert(all.take(i + 1).drop_last() =~= all.take(i as int));
            assert(all[i as int] == self.plugins@[i as int]@);
            if self.plugins[i].trigger == *trigger {
                let ghost before = out@.map_values(|k: usize| k as int);
                out.push(i);
                assert(out@.map_values(|k: usize| k as int) =~= before.push(i as int));
            }
            i = i + 1;
        }
        assert(all.take(self.plugins@.len() as int) =~= all);
        out
    }

    /// How many plugins run at a trigger.
    pub fn get_by_trigger(&self, trigger: &HookTrigger) -> (r: usize)
        ensures
            r == places_of(self@, *trigger).len(),
    {
        let places = self.matching(trigger);
        assert(places@.map_values(|k: usize| k as int).len() == places@.len());
        places.len()
    }
}

/// The plugins that are configured.
pub open spec fn configured(configs: Seq<PluginConfig>) -> Seq<PluginView> {
    configs.map_values(
        |c: PluginConfig|
            PluginView {
                name: c.name@,
                command: c.command@,
                args: texts(c.args@),
                trigger: c.trigger,
                timeout_ms: HOOK_TIMEOUT_MS,
            },
    )
}

/// What a plugin gave: nothing where it failed or had nothing to give.
pub struct PluginResult {
    pub name: String,
    pub context: Option<String>,
}

/// The sections of the context that plugins gave.
pub open spec fn sections(results: Seq<PluginResult>) -> Seq<Seq<char>>
    decreases results.len(),
{
    if results.len() == 0 {
        Seq::empty()
    } else {
        let before = sections(results.drop_last());
        match results.last().context {
            Some(context) => before.push("# Plugin: "@ + results.last().name@ + "\n"@ + context@),
            None => before,
        }
    }
}

/// The context that plugins gave, each under its name.
pub fn combine_outputs(results: &[PluginResult]) -> (r: String)
    ensures
        r@ == joined(sections(results@), "\n\n"@),
{
    let mut parts: Vec<String> = Vec::new();
    assert(results@.take(0) =~= Seq::empty());
    assert(texts(parts@) =~= sections(results@.take(0)));
    let mut i: usize = 0;
    while i < results.len()
        invariant
            i <= results@.len(),
            texts(parts@) == sections(results@.take(i as int)),
        decreases results.len() - i,
    {
        assert(results@.take(i + 1).drop_last() =~= results@.take(i as int));
        match &results[i].context {
            Some(context) => {
                let ghost before = texts(parts@);
                let mut part = "# Plugin: ".to_owned();
                part.append(results[i].name.as_str());
                part.append("\n");
                part.append(context.as_str());
                parts.push(part);
                assert(texts(parts@) =~= before.push(part@));
            },
            None => {},
        }
        i = i + 1;
    }
    assert(results@.take(results@.len() as int) =~= results@);
    text::join(parts.as_slice(), "\n\n")
}

} // verus!
