//! When the setup is ready, and what is told where it is not.

use vstd::prelude::*;
use crate::config::{Config, ResolvedView};
use crate::doctor::{
    all_healthy, answer_lines, checked_models, command_line, command_lines, config_lines, covers,
    doctor_lines, key_line, key_lines, model_lines, one_per_provider, program_lines, ready_models,
    report_text, shown_line, trust_line, Findings, LineView, ToolCommand,
};
use crate::text::{joined, occurs};
use crate::text_laws::{law_joined, lemma_between, lemma_occurs_in};

verus! {

proof fn lemma_healthy_concat(a: Seq<LineView>, b: Seq<LineView>)
    ensures
        all_healthy(a + b) <==> all_healthy(a) && all_healthy(b),
{
    let all = a + b;
    if all_healthy(all) {
        assert forall|i: int| 0 <= i < a.len() implies (#[trigger] a[i]).level
            != crate::doctor::Level::Failure by {
            assert(all[i] == a[i]);
        }
        assert forall|i: int| 0 <= i < b.len() implies (#[trigger] b[i]).level
            != crate::doctor::Level::Failure by {
            assert(all[a.len() + i] == b[i]);
        }
    }
    if all_healthy(a) && all_healthy(b) {
        assert forall|i: int| 0 <= i < all.len() implies (#[trigger] all[i]).level
            != crate::doctor::Level::Failure by {
            if i < a.len() {
                assert(all[i] == a[i]);
            } else {
                assert(all[i] == b[i - a.len()]);
            }
        }
    }
}

proof fn lemma_commands(name: Seq<char>, commands: Seq<ToolCommand>)
    ensures
        all_healthy(command_lines(name, commands)) <==> forall|i: int|
            0 <= i < commands.len() ==> (#[trigger] commands[i]).available,
{
    let lines = command_lines(name, commands);
    if all_healthy(lines) {
        assert forall|i: int| 0 <= i < commands.len() implies (
        #[trigger] commands[i]).available by {
            assert(lines[i] == command_line(name, commands[i]));
        }
    }
    if forall|i: int| 0 <= i < commands.len() ==> (#[trigger] commands[i]).available {
        assert forall|i: int| 0 <= i < lines.len() implies (#[trigger] lines[i]).level
            != crate::doctor::Level::Failure by {
            assert(commands[i].available);
        }
    }
}

proof fn lemma_keys(models: Seq<ResolvedView>, keys: Seq<bool>)
    requires
        keys.len() == models.len(),
    ensures
        all_healthy(key_lines(models, keys)) <==> forall|i: int|
            0 <= i < models.len() ==> keys[i] || !(#[trigger] models[i]).needs_key(),
{
    let lines = key_lines(models, keys);
    if all_healthy(lines) {
        assert forall|i: int| 0 <= i < models.len() implies keys[i] || !(
        #[trigger] models[i]).needs_key() by {
            assert(lines[i] == key_line(models[i], keys[i]));
        }
    }
    if forall|i: int| 0 <= i < models.len() ==> keys[i] || !(#[trigger] models[i]).needs_key() {
        assert forall|i: int| 0 <= i < lines.len() implies (#[trigger] lines[i]).level
            != crate::doctor::Level::Failure by {
            assert(keys[i] || !models[i].needs_key());
        }
    }
}

/// The setup is ready exactly where a model is configured, the threshold is in its range, every
/// command of a server or a hook is found, every provider that needs a key has one, and every
/// provider that was asked answered. What else is missing is only a warning.
pub proof fn law_ready(config: Config, f: Findings)
    requires
        covers(f, config),
    ensures
        all_healthy(doctor_lines(config, f)) <==> {
            &&& config.selectable() matches Ok(models)
            &&& models.len() > 0
            &&& f.threshold_in_range
            &&& forall|i: int| 0 <= i < f.servers@.len() ==> (#[trigger] f.servers@[i]).available
            &&& forall|i: int| 0 <= i < f.plugins@.len() ==> (#[trigger] f.plugins@[i]).available
            &&& forall|i: int|
                0 <= i < checked_models(config).len() ==> f.keys@[i] || !(
                #[trigger] checked_models(config)[i]).needs_key()
            &&& f.offline || forall|i: int|
                0 <= i < f.answers@.len() ==> (#[trigger] f.answers@[i]) is Ok
        },
{
    let checked = checked_models(config);
    let ready = ready_models(checked, f.keys@);
    let a = config_lines(f);
    let b = model_lines(config, f);
    let c = program_lines(f);
    let d = command_lines("MCP"@, f.servers@);
    let e = command_lines("hook"@, f.plugins@);
    let g = key_lines(checked, f.keys@);
    let h = answer_lines(ready, f.answers@, f.offline);
    let t = seq![trust_line(config)];
    lemma_healthy_concat(a, b);
    lemma_healthy_concat(a + b, c);
    lemma_healthy_concat(a + b + c, d);
    lemma_healthy_concat(a + b + c + d, e);
    lemma_healthy_concat(a + b + c + d + e, g);
    lemma_healthy_concat(a + b + c + d + e + g, h);
    lemma_healthy_concat(a + b + c + d + e + g + h, t);
    assert(all_healthy(a));
    assert(all_healthy(c));
    assert(all_healthy(t));
    lemma_commands("MCP"@, f.servers@);
    lemma_commands("hook"@, f.plugins@);
    lemma_keys(checked, f.keys@);
    assert(all_healthy(b) <==> (config.selectable() matches Ok(models) && models.len() > 0
        && f.threshold_in_range)) by {
        if all_healthy(b) {
            assert(b[0].level != crate::doctor::Level::Failure);
            if !f.threshold_in_range {
                assert(b[b.len() - 1].level != crate::doctor::Level::Failure);
            }
        }
    }
    if !f.offline {
        if all_healthy(h) {
            assert forall|i: int| 0 <= i < f.answers@.len() implies (
            #[trigger] f.answers@[i]) is Ok by {
                assert(h[i].level != crate::doctor::Level::Failure);
            }
        }
        if forall|i: int| 0 <= i < f.answers@.len() ==> (#[trigger] f.answers@[i]) is Ok {
            assert forall|i: int| 0 <= i < h.len() implies (#[trigger] h[i]).level
                != crate::doctor::Level::Failure by {
                assert(f.answers@[i] is Ok);
            }
        }
    }
}

/// The report has every line in it, in order, and says at its start whether everything is ready.
pub proof fn law_report_complete(lines: Seq<LineView>, i: int)
    requires
        0 <= i < lines.len(),
    ensures
        occurs(shown_line(lines[i]), report_text(lines)),
        all_healthy(lines) <==> "claux doctor: ready"@.is_prefix_of(report_text(lines)),
{
    let shown = lines.map_values(|l: LineView| shown_line(l));
    let summary = if all_healthy(lines) {
        "claux doctor: ready"@
    } else {
        "claux doctor: action required"@
    };
    let told = report_text(lines);
    let listed = joined(shown, "\n"@);
    assert(shown[i] == shown_line(lines[i]));
    law_joined(shown, "\n"@, i);
    lemma_between(summary + "\n\n"@, listed, "\n"@);
    lemma_occurs_in(shown[i], listed, told);
    let ready = "claux doctor: ready"@;
    reveal_strlit("claux doctor: ready");
    reveal_strlit("claux doctor: action required");
    assert(ready.len() == 19 && ready[14] == 'r');
    assert("claux doctor: action required"@[14] == 'a');
    assert("claux doctor: action required"@.len() > 19);
    if all_healthy(lines) {
        assert(told.subrange(0, ready.len() as int) =~= ready);
    } else {
        assert(told.subrange(0, ready.len() as int)[14] == summary[14]);
    }
}

/// Whether a provider has a model in a list.
pub open spec fn has_provider(models: Seq<ResolvedView>, provider: Seq<char>) -> bool {
    exists|k: int| 0 <= k < models.len() && (#[trigger] models[k]).binding.provider == provider
}

/// Whether no model in front of the one at `i` is of its provider.
pub open spec fn is_first(models: Seq<ResolvedView>, i: int) -> bool {
    !has_provider(models.take(i), models[i].binding.provider)
}

proof fn lemma_has_provider_push(models: Seq<ResolvedView>, m: ResolvedView, provider: Seq<char>)
    ensures
        has_provider(models.push(m), provider) <==> has_provider(models, provider)
            || m.binding.provider == provider,
{
    let all = models.push(m);
    if has_provider(models, provider) {
        let k = choose|k: int|
            0 <= k < models.len() && (#[trigger] models[k]).binding.provider == provider;
        assert(all[k] == models[k]);
    }
    if m.binding.provider == provider {
        assert(all[models.len() as int] == m);
    }
    if has_provider(all, provider) && m.binding.provider != provider {
        let k = choose|k: int|
            0 <= k < all.len() && (#[trigger] all[k]).binding.provider == provider;
        assert(all[k] == models[k]);
    }
}

/// Of the models of a provider the first is checked, and no other; every provider has one.
pub proof fn law_each_provider_checked(models: Seq<ResolvedView>, provider: Seq<char>, k: int)
    ensures
        has_provider(one_per_provider(models), provider) <==> has_provider(models, provider),
        0 <= k < one_per_provider(models).len() ==> is_first(one_per_provider(models), k),
        0 <= k < one_per_provider(models).len() ==> exists|i: int|
            0 <= i < models.len() && models[i] == one_per_provider(models)[k]
                && #[trigger] is_first(models, i),
    decreases models.len(),
{
    if models.len() > 0 {
        let init = models.drop_last();
        let last = models.last();
        let before = one_per_provider(init);
        let after = one_per_provider(models);
        let own = last.binding.provider;
        let n = models.len() - 1;
        assert(models =~= init.push(last));
        law_each_provider_checked(init, provider, k);
        law_each_provider_checked(init, own, k);
        lemma_has_provider_push(init, last, provider);
        let seen = exists|i: int|
            0 <= i < models.len() - 1 && (#[trigger] models[i]).binding.provider == own;
        assert(seen <==> has_provider(init, own)) by {
            if seen {
                let i = choose|i: int|
                    0 <= i < models.len() - 1 && (#[trigger] models[i]).binding.provider == own;
                assert(init[i] == models[i]);
            }
            if has_provider(init, own) {
                let i = choose|i: int|
                    0 <= i < init.len() && (#[trigger] init[i]).binding.provider == own;
                assert(models[i] == init[i]);
            }
        }
        if !seen {
            assert(after == before.push(last));
            lemma_has_provider_push(before, last, provider);
        }
        if 0 <= k < before.len() {
            assert(after[k] == before[k]);
            assert(after.take(k) =~= before.take(k));
            let i = choose|i: int|
                0 <= i < init.len() && init[i] == before[k] && #[trigger] is_first(init, i);
            assert(models[i] == init[i]);
            assert(models.take(i) =~= init.take(i));
            assert(is_first(models, i));
        } else if 0 <= k < after.len() {
            assert(after.take(k) =~= before);
            assert(models.take(n) =~= init);
            assert(is_first(models, n));
        }
    }
}

} // verus!
