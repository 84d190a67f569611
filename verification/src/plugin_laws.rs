//! Which plugins run for a hook, and what comes of what they print.

use vstd::prelude::*;
use crate::config::HookTrigger;
use crate::plugin::{contribution, places_of, sections, PluginResult, PluginView};
use crate::text::occurs;
use crate::text_laws::lemma_between;

verus! {

/// The plugins that run for a hook are those that are set up for it, each once, in the order in
/// which they were set up.
pub proof fn law_plugins_of_hook(plugins: Seq<PluginView>, trigger: HookTrigger)
    ensures
        forall|k: int|
            0 <= k < places_of(plugins, trigger).len() ==> 0 <= #[trigger] places_of(
                plugins,
                trigger,
            )[k] < plugins.len() && plugins[places_of(plugins, trigger)[k]].trigger == trigger,
        forall|i: int|
            0 <= i < plugins.len() && (#[trigger] plugins[i]).trigger == trigger ==> places_of(
                plugins,
                trigger,
            ).contains(i),
        forall|j: int, k: int|
            0 <= j < k < places_of(plugins, trigger).len() ==> #[trigger] places_of(
                plugins,
                trigger,
            )[j] < #[trigger] places_of(plugins, trigger)[k],
    decreases plugins.len(),
{
    if plugins.len() > 0 {
        let init = plugins.drop_last();
        let before = places_of(init, trigger);
        let all = places_of(plugins, trigger);
        law_plugins_of_hook(init, trigger);
        assert forall|k: int| 0 <= k < all.len() implies 0 <= #[trigger] all[k] < plugins.len()
            && plugins[all[k]].trigger == trigger by {
            if k < before.len() {
                assert(all[k] == before[k]);
                assert(init[before[k]] == plugins[before[k]]);
            }
        }
        assert forall|i: int|
            0 <= i < plugins.len() && (#[trigger] plugins[i]).trigger
                == trigger implies all.contains(i) by {
            if i < init.len() {
                assert(init[i].trigger == trigger);
                let k = choose|k: int| 0 <= k < before.len() && before[k] == i;
                assert(all[k] == i);
            } else {
                assert(all[all.len() - 1] == i);
            }
        }
        assert forall|j: int, k: int| 0 <= j < k < all.len() implies #[trigger] all[j]
            < #[trigger] all[k] by {
            assert(all[j] == before[j]);
            if k < before.len() {
                assert(all[k] == before[k]);
            }
        }
    }
}

/// The context that plugins give has one section for each plugin that gave some, in order, with
/// the name of the plugin and all that it gave; what one gives does not depend on the others.
pub proof fn law_plugin_sections(a: Seq<PluginResult>, b: Seq<PluginResult>, one: PluginResult)
    ensures
        sections(a + b) == sections(a) + sections(b),
        one.context is None ==> sections(seq![one]).len() == 0,
        one.context matches Some(context) ==> {
            &&& sections(seq![one]).len() == 1
            &&& occurs(one.name@, sections(seq![one])[0])
            &&& context@.is_suffix_of(sections(seq![one])[0])
        },
    decreases b.len(),
{
    let single = seq![one];
    assert(single.last() == one);
    assert(sections(single.drop_last()) =~= Seq::empty());
    if let Some(context) = one.context {
        let section = "# Plugin: "@ + one.name@ + "\n"@ + context@;
        lemma_between("# Plugin: "@, one.name@, "\n"@ + context@);
        assert(section =~= "# Plugin: "@ + one.name@ + ("\n"@ + context@));
        assert(section.subrange(section.len() - context@.len(), section.len() as int)
            =~= context@);
        assert(sections(seq![one]) =~= Seq::empty().push(section));
    }
    if b.len() == 0 {
        assert(a + b =~= a);
        assert(sections(a) + sections(b) =~= sections(a));
    } else {
        law_plugin_sections(a, b.drop_last(), one);
        assert((a + b).drop_last() =~= a + b.drop_last());
        assert(sections(a + b) =~= sections(a) + sections(b));
    }
}

/// A plugin that fails gives nothing, whatever it printed, and what is given is never blank.
pub proof fn law_failed_plugin_gives_nothing(stdout: Seq<u8>)
    ensures
        contribution(false, stdout) is None,
        contribution(true, stdout) matches Some(given) ==> given.len() > 0,
{
}

} // verus!
