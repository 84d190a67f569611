//! Which model is used, and what is known of it.

use vstd::prelude::*;
use crate::api::error::first_of;
use crate::api::types::text_option;
use crate::compact::window_of;
use crate::command_sandbox::{self, BashFilesystemPolicy};
use crate::config::{
    bash_policy_after, distinct_models, mode_after, native_policy_after, Config, ProviderKind,
    ResolvedView,
};
use crate::model::{known, ModelMetadata, ModelPricing};
use crate::model_catalog::{is_fresh, is_openrouter_host, EntryView};
use crate::permissions::{mode_named, PermissionMode};
use crate::sandbox::{self, NativeToolFilesystemPolicy};
use crate::startup::with_requested;
use crate::table::lookup;
use crate::text::{occurs, trimmed};
use crate::text_laws::{lemma_between, lemma_in_front, lemma_occurs_in};
use crate::trust::same_directory;

verus! {

proof fn lemma_begins(short: Seq<char>, long: Seq<char>, model: Seq<char>)
    requires
        short.len() <= long.len(),
        long.take(short.len() as int) == short,
    ensures
        occurs(long, model) ==> occurs(short, model),
{
    lemma_between(Seq::empty(), short, long.skip(short.len() as int));
    assert(Seq::<char>::empty() + short + long.skip(short.len() as int) =~= long);
    if occurs(long, model) {
        lemma_occurs_in(short, long, model);
    }
}

/// What is known of a model and what a conversation with it is measured against are the same
/// window, but for the newest family of one provider, which has a larger one. Where prices are
/// known, output costs more than input, and reading from the cache costs a tenth of it, while
/// writing to the cache costs more.
pub proof fn law_known_models(model: Seq<char>)
    ensures
        !occurs("gpt-5"@, model) ==> known(model).context_window == window_of(model),
        occurs("gpt-5.6"@, model) ==> known(model).context_window == 1050000,
        known(model).context_window > 0,
        known(model).pricing matches Some(p) ==> {
            &&& p.output > p.input
            &&& p.input == 10 * p.cache_read
            &&& p.cache_write > p.input
        },
{
    reveal_strlit("gpt-5");
    reveal_strlit("gpt-5.6");
    reveal_strlit("gpt-5.6-sol");
    reveal_strlit("gpt-5.6-terra");
    reveal_strlit("gpt-5.6-luna");
    reveal_strlit("gpt-5.3-codex");
    reveal_strlit("gpt-5.2-codex");
    reveal_strlit("gpt-5.1-codex");
    reveal_strlit("gpt-5-codex");
    assert("gpt-5.6"@.take(5) =~= "gpt-5"@);
    assert("gpt-5.6-sol"@.take(5) =~= "gpt-5"@);
    assert("gpt-5.6-terra"@.take(5) =~= "gpt-5"@);
    assert("gpt-5.6-luna"@.take(5) =~= "gpt-5"@);
    assert("gpt-5.3-codex"@.take(5) =~= "gpt-5"@);
    assert("gpt-5.2-codex"@.take(5) =~= "gpt-5"@);
    assert("gpt-5.1-codex"@.take(5) =~= "gpt-5"@);
    assert("gpt-5-codex"@.take(5) =~= "gpt-5"@);
    lemma_begins("gpt-5"@, "gpt-5.6"@, model);
    lemma_begins("gpt-5"@, "gpt-5.6-sol"@, model);
    lemma_begins("gpt-5"@, "gpt-5.6-terra"@, model);
    lemma_begins("gpt-5"@, "gpt-5.6-luna"@, model);
    lemma_begins("gpt-5"@, "gpt-5.3-codex"@, model);
    lemma_begins("gpt-5"@, "gpt-5.2-codex"@, model);
    lemma_begins("gpt-5"@, "gpt-5.1-codex"@, model);
    lemma_begins("gpt-5"@, "gpt-5-codex"@, model);
    if model == "gpt-5.6"@ {
        lemma_between(Seq::empty(), model, Seq::empty());
        assert(Seq::<char>::empty() + model + Seq::<char>::empty() =~= model);
    }
}

/// What is set for a model wins over what is known of it; a window of nothing is no setting.
pub proof fn law_settings_win(
    known_of: ModelMetadata,
    window: Option<usize>,
    pricing: Option<ModelPricing>,
)
    ensures
        ({
            let after = known_of.overridden(window, pricing);
            &&& after.context_window == if window is Some && window->Some_0 > 0 {
                window->Some_0
            } else {
                known_of.context_window
            }
            &&& after.pricing == if pricing is Some {
                pricing
            } else {
                known_of.pricing
            }
        }),
{
}

/// A profile resolves where it and its provider are set up, and its provider has an address if
/// it needs one. The model is then the profile's and everything about the connection is the
/// provider's; names that are not set fall back to the ids, and the variable that holds the
/// key to the usual one of the provider. Otherwise the message names what is missing.
pub proof fn law_profile_resolves(config: Config, name: Seq<char>)
    ensures
        ({
            let profile = lookup(config.model_profiles, name);
            let provider = lookup(config.providers, profile->Some_0.provider@);
            let resolves = profile is Some && provider is Some && !(provider->Some_0.kind
                == ProviderKind::Openai && provider->Some_0.base_url is None);
            let result = config.profile_result(name);
            &&& result is Ok <==> resolves
            &&& profile is None ==> occurs(name, result->Err_0)
            &&& profile is Some && provider is None ==> occurs(name, result->Err_0) && occurs(
                profile->Some_0.provider@,
                result->Err_0,
            )
            &&& result matches Ok(r) ==> {
                let p = profile->Some_0;
                let q = provider->Some_0;
                let b = r.binding;
                &&& b.profile == name
                &&& b.model == p.model@
                &&& b.provider == p.provider@
                &&& b.provider_kind == q.kind
                &&& b.protocol == q.protocol
                &&& b.base_url == text_option(q.base_url)
                &&& b.reasoning_effort == text_option(p.reasoning_effort)
                &&& b.prompt_caching == q.prompt_caching
                &&& b.allow_eof_without_finish_reason == q.allow_eof_without_finish_reason
                &&& first_of(text_option(p.display_name), Some(p.model@)) == Some(b.display_name)
                &&& first_of(text_option(q.name), Some(p.provider@)) == Some(b.provider_name)
                &&& q.api_key_env is Some ==> b.api_key_env == q.api_key_env->Some_0@
                &&& q.api_key_env is None ==> b.api_key_env == if q.kind
                    == ProviderKind::Anthropic {
                    "ANTHROPIC_API_KEY"@
                } else {
                    "OPENAI_API_KEY"@
                }
                &&& r.api_key == text_option(q.api_key)
                &&& r.api_key_cmd == text_option(q.api_key_cmd)
                &&& r.context_window_override == p.context_window
            }
        }),
{
    lemma_between("model profile '"@, name, "' is not configured"@);
    let profile = lookup(config.model_profiles, name);
    if let Some(p) = profile {
        let a = "model profile '"@ + name;
        let b = "' references missing provider '"@;
        lemma_between("model profile '"@, name, b + p.provider@ + "'"@);
        assert(a + (b + p.provider@ + "'"@) =~= a + b + p.provider@ + "'"@);
        lemma_between(a + b, p.provider@, "'"@);
    }
}

/// A model is found under the name of a profile first, and else under its own name, if that is
/// the name of exactly one; whatever is found answers to the name that was asked for, and a
/// failure names it.
pub proof fn law_model_found(config: Config, name: Seq<char>)
    requires
        config.selectable() is Ok,
    ensures
        ({
            let result = config.model_result(name);
            let same = config.selectable()->Ok_0.filter(
                |m: ResolvedView| m.binding.model == name,
            );
            let is_profile = config.model_profiles@.contains_key(name);
            &&& is_profile ==> result == config.profile_result(name)
            &&& !is_profile && same.len() == 1 ==> result == Ok::<ResolvedView, Seq<char>>(same[0])
            &&& !is_profile && same.len() > 1 ==> result is Err && occurs(name, result->Err_0)
            &&& !is_profile && same.len() == 0 && config.model_profiles.names().len() > 0
                ==> result is Err && occurs(name, result->Err_0)
            &&& result matches Ok(r) ==> r.binding.profile == name || r.binding.model == name
        }),
{
    broadcast use vstd::seq_lib::group_filter_ensures;

    let models = config.selectable()->Ok_0;
    let same = models.filter(|m: ResolvedView| m.binding.model == name);
    if same.len() == 1 {
        assert(same.contains(same[0]));
        assert(same[0].binding.model == name);
    }
    law_profile_resolves(config, name);
    lemma_between(
        "model ID '"@,
        name,
        "' is configured by multiple profiles; use a profile name"@,
    );
    let a = "model/profile '"@ + name + "' is not configured; choose one of: "@;
    lemma_between("model/profile '"@, name, "' is not configured; choose one of: "@);
    lemma_in_front(name, a, crate::text::joined(config.model_profiles.names(), ", "@));
}

/// Of models that are listed by name each is offered once, without the whitespace around its
/// name and in the order in which it first comes; a blank name is none. None is lost.
pub proof fn law_models_offered_once(all: Seq<Seq<char>>)
    ensures
        distinct_models(all).no_duplicates(),
        forall|i: int|
            0 <= i < all.len() && trimmed(#[trigger] all[i]).len() > 0 ==> distinct_models(
                all,
            ).contains(trimmed(all[i])),
        forall|k: int|
            0 <= k < distinct_models(all).len() ==> {
                &&& (#[trigger] distinct_models(all)[k]).len() > 0
                &&& exists|i: int|
                    0 <= i < all.len() && trimmed(#[trigger] all[i]) == distinct_models(all)[k]
            },
        all.len() > 0 ==> distinct_models(all.drop_last()).is_prefix_of(distinct_models(all)),
    decreases all.len(),
{
    if all.len() > 0 {
        let init = all.drop_last();
        let before = distinct_models(init);
        let after = distinct_models(all);
        let last = trimmed(all.last());
        law_models_offered_once(init);
        assert(all[all.len() - 1] == all.last());
        assert forall|i: int| 0 <= i < all.len() && trimmed(#[trigger] all[i]).len()
            > 0 implies after.contains(trimmed(all[i])) by {
            if i < init.len() {
                assert(init[i] == all[i]);
                let k = choose|k: int| 0 <= k < before.len() && before[k] == trimmed(init[i]);
                assert(after[k] == before[k]);
            } else if !before.contains(last) {
                assert(after.last() == last);
            } else {
                let k = choose|k: int| 0 <= k < before.len() && before[k] == last;
                assert(after[k] == last);
            }
        }
        assert forall|k: int| 0 <= k < after.len() implies {
            &&& (#[trigger] after[k]).len() > 0
            &&& exists|i: int| 0 <= i < all.len() && trimmed(#[trigger] all[i]) == after[k]
        } by {
            if k < before.len() {
                assert(after[k] == before[k]);
                let i = choose|i: int|
                    0 <= i < init.len() && trimmed(#[trigger] init[i]) == before[k];
                assert(trimmed(all[i]) == after[k]);
            } else {
                assert(trimmed(all[all.len() - 1]) == after[k]);
            }
        }
        assert(after.subrange(0, before.len() as int) =~= before);
    }
}

/// A model that is asked for on the command line is offered first, and once; the others stay,
/// in their order.
pub proof fn law_requested_first(
    models: Seq<ResolvedView>,
    name: Seq<char>,
    requested: ResolvedView,
    i: int,
)
    requires
        0 <= i < models.len(),
    ensures
        ({
            let offered = with_requested(models, name, requested);
            &&& offered[0] == requested
            &&& models[i].binding.profile != name && models[i].binding.model != name
                ==> offered.drop_first().contains(models[i])
            &&& forall|k: int|
                1 <= k < offered.len() ==> (#[trigger] offered[k]).binding.profile != name
                    && offered[k].binding.model != name && models.contains(offered[k])
        }),
{
    broadcast use vstd::seq_lib::group_filter_ensures;

    let keep = |m: ResolvedView| m.binding.profile != name && m.binding.model != name;
    let rest = models.filter(keep);
    let offered = with_requested(models, name, requested);
    assert(offered.drop_first() =~= rest);
    if keep(models[i]) {
        assert(models.contains(models[i]));
        assert(rest.contains(models[i]));
    }
    assert forall|k: int| 1 <= k < offered.len() implies (#[trigger] offered[k]).binding.profile
        != name && offered[k].binding.model != name && models.contains(offered[k]) by {
        assert(offered[k] == rest[k - 1]);
        assert(rest.contains(rest[k - 1]));
        models.lemma_filter_contains_rev(keep, rest[k - 1]);
        assert(keep(rest[k - 1]));
    }
}

/// A trusted project gets the permission mode that it asks for, and a name that is no mode
/// changes nothing, trusted or not; the same holds of what its tools may write to.
pub proof fn law_trusted_settings(
    mode: PermissionMode,
    native: NativeToolFilesystemPolicy,
    bash: BashFilesystemPolicy,
    name: Seq<char>,
    trusted: bool,
)
    ensures
        mode_named(name) matches Some(asked) ==> mode_after(mode, Some(name), true) == asked,
        mode_named(name) is None ==> mode_after(mode, Some(name), trusted) == mode,
        mode_after(mode, None, trusted) == mode,
        sandbox::policy_named(name) matches Some(asked) ==> native_policy_after(
            native,
            Some(name),
            true,
        ) == asked,
        sandbox::policy_named(name) is None ==> native_policy_after(native, Some(name), trusted)
            == native,
        native_policy_after(native, None, trusted) == native,
        command_sandbox::policy_named(name) matches Some(asked) ==> bash_policy_after(
            bash,
            Some(name),
            true,
        ) == asked,
        command_sandbox::policy_named(name) is None ==> bash_policy_after(bash, Some(name), trusted)
            == bash,
        bash_policy_after(bash, None, trusted) == bash,
{
}

/// Every policy has a name of its own, and is found under it.
pub proof fn law_policy_names(native: NativeToolFilesystemPolicy, bash: BashFilesystemPolicy)
    ensures
        sandbox::policy_named(sandbox::policy_name(native)) == Some(native),
        command_sandbox::policy_named(command_sandbox::policy_name(bash)) == Some(bash),
{
    reveal_strlit("auto");
    reveal_strlit("unrestricted");
    reveal_strlit("workspace_only");
    reveal_strlit("workspace_write");
    assert("auto"@.len() == 4);
    assert("unrestricted"@.len() == 12);
    assert("workspace_only"@.len() == 14);
    assert("workspace_write"@.len() == 15);
}

/// Two directories are the same where they resolve to the same place, however they are written;
/// where one of them does not resolve, only what is written counts. It makes no difference
/// which of them comes first.
pub proof fn law_same_directory(
    a: Seq<char>,
    a_resolved: Option<Seq<char>>,
    b: Seq<char>,
    b_resolved: Option<Seq<char>>,
)
    ensures
        same_directory(a, a_resolved, a, a_resolved),
        same_directory(a, a_resolved, b, b_resolved) == same_directory(
            b,
            b_resolved,
            a,
            a_resolved,
        ),
        a_resolved is Some && b_resolved is Some ==> (same_directory(a, a_resolved, b, b_resolved)
            <==> a_resolved == b_resolved),
        a_resolved is None || b_resolved is None ==> (same_directory(a, a_resolved, b, b_resolved)
            <==> a == b),
{
}

/// A host is that of the catalog where it is its name or ends in a dot and its name; a host that
/// only ends in the name is another.
pub proof fn law_catalog_hosts(front: Seq<char>)
    ensures
        is_openrouter_host("openrouter.ai"@),
        is_openrouter_host(front + ".openrouter.ai"@),
        front.len() > 0 && front.last() != '.' ==> !is_openrouter_host(front + "openrouter.ai"@),
{
    reveal_strlit("openrouter.ai");
    reveal_strlit(".openrouter.ai");
    let name = "openrouter.ai"@;
    let ending = ".openrouter.ai"@;
    assert(name.len() == 13);
    assert(ending.len() == 14 && ending[0] == '.');
    let below = front + ending;
    assert(below.subrange(below.len() - ending.len(), below.len() as int) =~= ending);
    let other = front + name;
    if front.len() > 0 && front.last() != '.' {
        if ending.is_suffix_of(other) {
            let n = other.len() - 14;
            assert(other.subrange(n, other.len() as int)[0] == other[n]);
            assert(other[n] == front.last());
        }
    }
}

/// An answer of the catalog that is old enough to be asked for again stays so, and one that is
/// new stays new for a day.
pub proof fn law_answers_age(entry: EntryView, earlier: u64, now: u64)
    requires
        entry.fetched_at_unix <= earlier <= now,
    ensures
        is_fresh(entry, entry.fetched_at_unix),
        is_fresh(entry, now) ==> is_fresh(entry, earlier),
        now - entry.fetched_at_unix <= 24 * 60 * 60 <==> is_fresh(entry, now),
{
}

} // verus!
