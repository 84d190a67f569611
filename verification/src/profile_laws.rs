//! What adding a profile to a configuration keeps, and that adding it once more changes
//! nothing.

use vstd::prelude::*;
use crate::document::{
    document_items, field_value, has_entry, is_braced, is_dropped, is_headed, is_whole,
    parsed_document, takes_header, with_entry, written, ItemView, Items,
};
use crate::onboarding::{
    added_items, candidate, copied_items, credential_copies, effort_copies,
    entry_items, entry_name, entry_string, entry_wanted, filled_items, fits_entry,
    has_open_tables, has_plain_sources, is_added, is_first_entry, is_plain, keeps_layout, legacy_fields,
    legacy_items, legacy_model, legacy_profile, legacy_provider, legacy_provider_fields,
    lemma_entry_name, lemma_legacy_top, lemma_names_differ, lemma_prepared_open,
    lemma_prepared_top, lemma_push_contains, lemma_some_usable, prepared_items, profile_fields,
    profile_items, profile_name_for, provider_fields, provider_name_for, slugged, table_items,
    top_item, top_string, usable, SpecificationView,
};

verus! {

/// Whether two documents hold the same at a path.
spec fn agree(x: Items, y: Items, path: Seq<Seq<char>>) -> bool {
    &&& x.dom().contains(path) == y.dom().contains(path)
    &&& x.dom().contains(path) ==> x[path] == y[path]
}

/// Whether a path leads to an entry of a table, or into it.
spec fn is_under(path: Seq<Seq<char>>, table: Seq<char>, name: Seq<char>) -> bool {
    path.len() >= 2 && path[0] == table && path[1] == name
}

proof fn lemma_under(path: Seq<Seq<char>>, table: Seq<char>, name: Seq<char>)
    ensures
        seq![table, name].is_prefix_of(path) <==> is_under(path, table, name),
        is_under(path, table, name) && path.len() == 2 ==> path == seq![table, name],
{
    let entry = seq![table, name];
    if entry.is_prefix_of(path) {
        assert(path.subrange(0, 2)[0] == path[0]);
        assert(path.subrange(0, 2)[1] == path[1]);
    }
    if is_under(path, table, name) {
        assert(entry =~= path.subrange(0, 2));
        if path.len() == 2 {
            assert(path =~= entry);
        }
    }
}

/// What an entry holds at a path, by its strings alone.
proof fn lemma_entry_at(
    items: Items,
    table: Seq<char>,
    name: Seq<char>,
    fields: Seq<(Seq<char>, Seq<char>)>,
    path: Seq<Seq<char>>,
)
    ensures
        ({
            let after = with_entry(items, table, name, fields);
            &&& !is_under(path, table, name) ==> agree(after, items, path)
            &&& is_under(path, table, name) ==> (after.dom().contains(path) <==> path.len() == 2
                || path.len() == 3 && field_value(fields, path[2]) is Some)
            &&& is_under(path, table, name) && path.len() == 2 ==> after[path] == ItemView::Table
            &&& is_under(path, table, name) && path.len() == 3 && field_value(fields, path[2])
                is Some ==> after[path] == ItemView::Text(field_value(fields, path[2])->Some_0)
        }),
{
    lemma_under(path, table, name);
    if path == seq![table, name] {
        assert(path.len() == 2);
    }
}

/// Whether names are all that have an entry in a table.
spec fn lists_all(items: Items, table: Seq<char>, names: Seq<Seq<char>>) -> bool {
    forall|name: Seq<char>| #[trigger] has_entry(items, table, name) ==> names.contains(name)
}

proof fn lemma_first_entry(
    base: Seq<char>,
    items: Items,
    table: Seq<char>,
    first: (Seq<char>, Option<Seq<char>>),
    second: (Seq<char>, Option<Seq<char>>),
    names: Seq<Seq<char>>,
    k: nat,
) -> (r: nat)
    requires
        lists_all(items, table, names),
        1 <= k <= names.len() + 1,
        forall|j: nat|
            1 <= j < k ==> !fits_entry(#[trigger] candidate(base, j), items, table, first, second),
    ensures
        is_first_entry(r, base, items, table, first, second),
    decreases names.len() + 1 - k,
{
    if fits_entry(candidate(base, k), items, table, first, second) {
        k
    } else if k == names.len() + 1 {
        let wanted = Seq::new(names.len(), |i: int| false);
        assert forall|j: nat| 1 <= j <= names.len() + 1 implies !usable(
            #[trigger] candidate(base, j),
            names,
            wanted,
        ) by {
            assert(!fits_entry(candidate(base, j), items, table, first, second));
            assert(has_entry(items, table, candidate(base, j)));
        }
        lemma_some_usable(base, names, wanted);
        k
    } else {
        lemma_first_entry(base, items, table, first, second, names, k + 1)
    }
}

/// A name that was chosen is chosen again, where the entries are as they were, or its own
/// entry is the only one that came in.
proof fn lemma_chosen_again(
    base: Seq<char>,
    before: Items,
    after: Items,
    table: Seq<char>,
    first: (Seq<char>, Option<Seq<char>>),
    second: (Seq<char>, Option<Seq<char>>),
    names: Seq<Seq<char>>,
)
    requires
        lists_all(before, table, names),
        ({
            let name = entry_name(base, before, table, first, second);
            &&& forall|n: Seq<char>|
                #![trigger has_entry(before, table, n)]
                n != name && has_entry(before, table, n) ==> has_entry(after, table, n)
                    && entry_wanted(after, table, n, first, second) == entry_wanted(
                    before,
                    table,
                    n,
                    first,
                    second,
                )
            &&& has_entry(before, table, name) ==> entry_wanted(
                after,
                table,
                name,
                first,
                second,
            ) == entry_wanted(before, table, name, first, second)
            &&& !has_entry(before, table, name) && has_entry(after, table, name) ==> entry_wanted(
                after,
                table,
                name,
                first,
                second,
            )
        }),
    ensures
        entry_name(base, after, table, first, second) == entry_name(
            base,
            before,
            table,
            first,
            second,
        ),
        fits_entry(
            entry_name(base, before, table, first, second),
            before,
            table,
            first,
            second,
        ),
{
    let k = lemma_first_entry(base, before, table, first, second, names, 1);
    lemma_entry_name(k, base, before, table, first, second);
    let name = candidate(base, k);
    assert(fits_entry(name, after, table, first, second));
    assert forall|j: nat| 1 <= j < k implies !fits_entry(
        #[trigger] candidate(base, j),
        after,
        table,
        first,
        second,
    ) by {
        let other = candidate(base, j);
        assert(!fits_entry(other, before, table, first, second));
        assert(has_entry(before, table, other));
    }
    assert(is_first_entry(k, base, after, table, first, second));
    lemma_entry_name(k, base, after, table, first, second);
}

proof fn lemma_provider_fields(s: SpecificationView)
    ensures
        field_value(provider_fields(s), "type"@) == Some(s.kind),
        field_value(provider_fields(s), "base_url"@) == s.base_url,
{
    reveal_strlit("type");
    reveal_strlit("base_url");
    reveal_strlit("name");
    reveal_strlit("protocol");
    reveal_strlit("api_key_env");
    assert("type"@.len() == 4);
    assert("base_url"@.len() == 8);
    assert("name"@.len() == 4);
    assert("type"@[0] == 't');
    assert("name"@[0] == 'n');
    assert("protocol"@.len() == 8);
    assert("protocol"@[0] == 'p');
    assert("base_url"@[0] == 'b');
    assert("api_key_env"@.len() == 11);
    let fields = provider_fields(s);
    reveal_with_fuel(field_value, 6);
    let a = fields.drop_last();
    let b = a.drop_last();
    let c = b.drop_last();
    let d = c.drop_last();
    assert(a.last() == fields[fields.len() - 2]);
    assert(b.last() == fields[fields.len() - 3]);
    assert(c.last() == fields[fields.len() - 4]);
    if s.base_url is Some {
        assert(d.last() == fields[0]);
    }
}

proof fn lemma_profile_fields(s: SpecificationView, provider: Seq<char>)
    ensures
        field_value(profile_fields(s, provider), "provider"@) == Some(provider),
        field_value(profile_fields(s, provider), "model"@) == Some(s.model),
{
    reveal_strlit("provider");
    reveal_strlit("model");
    reveal_strlit("display_name");
    assert("provider"@.len() == 8);
    assert("model"@.len() == 5);
    assert("display_name"@.len() == 12);
    let fields = profile_fields(s, provider);
    reveal_with_fuel(field_value, 4);
    let a = fields.drop_last();
    let b = a.drop_last();
    assert(a.last() == fields[1]);
    assert(b.last() == fields[0]);
}

/// Whether items hold what is to be added, in whole entries only: beside the two entries
/// they agree with the outcome, and of each of the two they hold either the outcome or
/// what was there.
spec fn is_between(before: Items, between: Items, s: SpecificationView) -> bool {
    let added = profile_items(before, s);
    let provider = provider_name_for(before, s);
    let profile = profile_name_for(
        entry_items(before, "providers"@, provider, provider_fields(s)),
        s,
        provider,
    );
    &&& forall|path: Seq<Seq<char>>|
        !is_under(path, "providers"@, provider) && !is_under(path, "model_profiles"@, profile)
            ==> #[trigger] agree(between, added, path)
    &&& agree_under(between, added, "providers"@, provider) || agree_under(
        between,
        before,
        "providers"@,
        provider,
    )
    &&& agree_under(between, added, "model_profiles"@, profile) || agree_under(
        between,
        before,
        "model_profiles"@,
        profile,
    )
}

/// Whether two documents hold the same entry.
spec fn agree_under(x: Items, y: Items, table: Seq<char>, name: Seq<char>) -> bool {
    forall|path: Seq<Seq<char>>| is_under(path, table, name) ==> #[trigger] agree(x, y, path)
}

/// What is known of a name after an entry was added where it was free.
proof fn lemma_entry_added(
    items: Items,
    table: Seq<char>,
    name: Seq<char>,
    fields: Seq<(Seq<char>, Seq<char>)>,
)
    ensures
        ({
            let after = entry_items(items, table, name, fields);
            &&& has_entry(after, table, name)
            &&& forall|path: Seq<Seq<char>>|
                !is_under(path, table, name) ==> #[trigger] agree(after, items, path)
            &&& !has_entry(items, table, name) ==> (forall|key: Seq<char>| #[trigger]
                entry_string(after, table, name, key) == field_value(fields, key))
        }),
{
    let after = entry_items(items, table, name, fields);
    lemma_entry_at(items, table, name, fields, seq![table, name]);
    if !has_entry(items, table, name) {
        assert forall|path: Seq<Seq<char>>| !is_under(path, table, name) implies #[trigger] agree(
            after,
            items,
            path,
        ) by {
            lemma_entry_at(items, table, name, fields, path);
        }
        assert forall|key: Seq<char>| #[trigger] entry_string(after, table, name, key)
            == field_value(fields, key) by {
            lemma_entry_at(items, table, name, fields, seq![table, name, key]);
        }
    }
}

/// Whether entries of a table other than one are the same in two documents.
proof fn lemma_others_wanted(
    x: Items,
    y: Items,
    table: Seq<char>,
    name: Seq<char>,
    first: (Seq<char>, Option<Seq<char>>),
    second: (Seq<char>, Option<Seq<char>>),
)
    requires
        agree_under(x, y, table, name),
    ensures
        has_entry(x, table, name) == has_entry(y, table, name),
        entry_wanted(x, table, name, first, second) == entry_wanted(y, table, name, first, second),
{
    assert(agree(x, y, seq![table, name]));
    assert(agree(x, y, seq![table, name, first.0]));
    assert(agree(x, y, seq![table, name, second.0]));
}

/// Where the two entries are partly there, adding them gives the same outcome.
proof fn lemma_between(before: Items, between: Items, s: SpecificationView, names: (
    Seq<Seq<char>>,
    Seq<Seq<char>>,
))
    requires
        lists_all(before, "providers"@, names.0),
        lists_all(before, "model_profiles"@, names.1),
        is_between(before, between, s),
    ensures
        profile_items(between, s) == profile_items(before, s),
{
    lemma_names_differ();
    let added = profile_items(before, s);
    let provider = provider_name_for(before, s);
    let a = entry_items(before, "providers"@, provider, provider_fields(s));
    let profile = profile_name_for(a, s, provider);
    let b = entry_items(a, "model_profiles"@, profile, profile_fields(s, provider));
    let one = ("type"@, Some(s.kind));
    let two = ("base_url"@, s.base_url);
    let three = ("provider"@, Some(provider));
    let four = ("model"@, Some(s.model));
    lemma_provider_fields(s);
    lemma_profile_fields(s, provider);
    lemma_entry_added(before, "providers"@, provider, provider_fields(s));
    lemma_entry_added(a, "model_profiles"@, profile, profile_fields(s, provider));
    assert forall|path: Seq<Seq<char>>| path != seq!["default_profile"@] implies #[trigger] agree(
        added,
        b,
        path,
    ) by {}
    // The provider.
    assert forall|n: Seq<char>| n != provider implies agree_under(
        between,
        before,
        "providers"@,
        n,
    ) by {
        assert forall|path: Seq<Seq<char>>| is_under(path, "providers"@, n) implies #[trigger] agree(
            between,
            before,
            path,
        ) by {
            assert(agree(between, added, path));
            assert(agree(added, b, path));
            assert(agree(b, a, path));
            assert(agree(a, before, path));
        }
    }
    assert(agree_under(added, a, "providers"@, provider)) by {
        assert forall|path: Seq<Seq<char>>|
            is_under(path, "providers"@, provider) implies #[trigger] agree(added, a, path) by {
            assert(agree(added, b, path));
            assert(agree(b, a, path));
        }
    }
    assert forall|n: Seq<char>|
        #![trigger has_entry(before, "providers"@, n)]
        n != provider && has_entry(before, "providers"@, n) implies has_entry(
        between,
        "providers"@,
        n,
    ) && entry_wanted(between, "providers"@, n, one, two) == entry_wanted(
        before,
        "providers"@,
        n,
        one,
        two,
    ) by {
        lemma_others_wanted(between, before, "providers"@, n, one, two);
    }
    lemma_others_wanted(added, a, "providers"@, provider, one, two);
    if agree_under(between, added, "providers"@, provider) {
        lemma_others_wanted(between, added, "providers"@, provider, one, two);
    } else {
        lemma_others_wanted(between, before, "providers"@, provider, one, two);
    }
    lemma_chosen_again(s.id, before, between, "providers"@, one, two, names.0);
    assert(provider_name_for(between, s) == provider);
    let a2 = entry_items(between, "providers"@, provider, provider_fields(s));
    lemma_entry_added(between, "providers"@, provider, provider_fields(s));
    assert(agree_under(a2, a, "providers"@, provider)) by {
        assert forall|path: Seq<Seq<char>>|
            is_under(path, "providers"@, provider) implies #[trigger] agree(a2, a, path) by {
            lemma_entry_at(before, "providers"@, provider, provider_fields(s), path);
            lemma_entry_at(between, "providers"@, provider, provider_fields(s), path);
            assert(agree(added, a, path));
            assert(agree(between, added, path) || agree(between, before, path));
            assert(agree(between, before, seq!["providers"@, provider]) || agree(
                between,
                added,
                seq!["providers"@, provider],
            ));
        }
    }
    // The profile.
    assert forall|n: Seq<char>| n != profile implies agree_under(a2, a, "model_profiles"@, n) by {
        assert forall|path: Seq<Seq<char>>|
            is_under(path, "model_profiles"@, n) implies #[trigger] agree(a2, a, path) by {
            assert(agree(a2, between, path));
            assert(agree(between, added, path));
            assert(agree(added, b, path));
            assert(agree(b, a, path));
        }
    }
    assert(agree_under(added, b, "model_profiles"@, profile)) by {
        assert forall|path: Seq<Seq<char>>|
            is_under(path, "model_profiles"@, profile) implies #[trigger] agree(
            added,
            b,
            path,
        ) by {}
    }
    assert(agree_under(a, before, "model_profiles"@, profile)) by {
        assert forall|path: Seq<Seq<char>>|
            is_under(path, "model_profiles"@, profile) implies #[trigger] agree(
            a,
            before,
            path,
        ) by {}
    }
    assert(agree_under(a2, between, "model_profiles"@, profile)) by {
        assert forall|path: Seq<Seq<char>>|
            is_under(path, "model_profiles"@, profile) implies #[trigger] agree(
            a2,
            between,
            path,
        ) by {}
    }
    assert(lists_all(a, "model_profiles"@, names.1)) by {
        assert forall|n: Seq<char>| #[trigger] has_entry(
            a,
            "model_profiles"@,
            n,
        ) implies names.1.contains(n) by {
            assert(agree(a, before, seq!["model_profiles"@, n]));
            assert(has_entry(before, "model_profiles"@, n));
        }
    }
    assert forall|n: Seq<char>|
        #![trigger has_entry(a, "model_profiles"@, n)]
        n != profile && has_entry(a, "model_profiles"@, n) implies has_entry(
        a2,
        "model_profiles"@,
        n,
    ) && entry_wanted(a2, "model_profiles"@, n, three, four) == entry_wanted(
        a,
        "model_profiles"@,
        n,
        three,
        four,
    ) by {
        lemma_others_wanted(a2, a, "model_profiles"@, n, three, four);
    }
    lemma_others_wanted(added, b, "model_profiles"@, profile, three, four);
    lemma_others_wanted(a, before, "model_profiles"@, profile, three, four);
    lemma_others_wanted(a2, between, "model_profiles"@, profile, three, four);
    if agree_under(between, added, "model_profiles"@, profile) {
        lemma_others_wanted(between, added, "model_profiles"@, profile, three, four);
    } else {
        lemma_others_wanted(between, before, "model_profiles"@, profile, three, four);
    }
    lemma_chosen_again(
        s.id + "-"@ + slugged(s.model),
        a,
        a2,
        "model_profiles"@,
        three,
        four,
        names.1,
    );
    assert(profile_name_for(a2, s, provider) == profile);
    let b2 = entry_items(a2, "model_profiles"@, profile, profile_fields(s, provider));
    lemma_entry_added(a2, "model_profiles"@, profile, profile_fields(s, provider));
    // The outcome.
    assert(agree(between, added, seq!["default_profile"@]));
    assert(agree(a2, between, seq!["default_profile"@]));
    assert(agree(b2, a2, seq!["default_profile"@]));
    assert(added.dom().contains(seq!["default_profile"@]));
    assert(profile_items(between, s) == b2);
    assert forall|path: Seq<Seq<char>>| #[trigger] agree(b2, added, path) by {
        if is_under(path, "providers"@, provider) {
            assert(agree(b2, a2, path));
            assert(agree(a2, a, path));
            assert(agree(added, a, path));
        } else if is_under(path, "model_profiles"@, profile) {
            lemma_entry_at(a, "model_profiles"@, profile, profile_fields(s, provider), path);
            lemma_entry_at(a2, "model_profiles"@, profile, profile_fields(s, provider), path);
            assert(agree(added, b, path));
            assert(agree(a, before, path));
            assert(agree(a2, between, path));
            assert(agree(between, added, path) || agree(between, before, path));
            let entry = seq!["model_profiles"@, profile];
            assert(agree(between, added, entry) || agree(between, before, entry));
            assert(agree(added, b, entry));
            assert(agree(a, before, entry));
            assert(agree(a2, between, entry));
        } else {
            assert(agree(b2, a2, path));
            assert(agree(a2, between, path));
            assert(agree(between, added, path));
        }
    }
    lemma_agree_everywhere(b2, added);
}

proof fn lemma_agree_everywhere(x: Items, y: Items)
    requires
        forall|path: Seq<Seq<char>>| #[trigger] agree(x, y, path),
    ensures
        x == y,
{
    assert forall|path: Seq<Seq<char>>| x.dom().contains(path) <==> y.dom().contains(path) by {
        assert(agree(x, y, path));
    }
    assert(x.dom() =~= y.dom());
    assert forall|path: Seq<Seq<char>>| x.dom().contains(path) implies x[path] == y[path] by {
        assert(agree(x, y, path));
    }
    assert(x =~= y);
}

/// Whether two documents hold the same under a key at the top.
spec fn agree_key(x: Items, y: Items, key: Seq<char>) -> bool {
    forall|path: Seq<Seq<char>>|
        path.len() > 0 && path[0] == key ==> #[trigger] agree(x, y, path)
}

/// Whether all that a document holds under a key at the top is written.
spec fn is_settled(items: Items, key: Seq<char>) -> bool {
    forall|path: Seq<Seq<char>>|
        path.len() > 0 && path[0] == key && #[trigger] items.dom().contains(path) ==> !is_dropped(
            items,
            path,
        )
}

/// What is written in one document is written in another, where it has no more braces and
/// headers on the way.
proof fn lemma_not_dropped(x: Items, y: Items, path: Seq<Seq<char>>)
    requires
        !is_dropped(y, path),
        forall|n: int|
            0 < n < path.len() && is_braced(x, #[trigger] path.take(n)) ==> is_braced(
                y,
                path.take(n),
            ),
        forall|m: int|
            1 < m <= path.len() && is_headed(x, #[trigger] path.take(m)) ==> is_headed(
                y,
                path.take(m),
            ),
    ensures
        !is_dropped(x, path),
{
    if is_dropped(x, path) {
        let (n, m) = choose|n: int, m: int|
            0 < n < m <= path.len() && is_braced(x, #[trigger] path.take(n)) && is_headed(
                x,
                #[trigger] path.take(m),
            );
        assert(is_braced(y, path.take(n)) && is_headed(y, path.take(m)));
    }
}

proof fn lemma_dropped_same(x: Items, y: Items, path: Seq<Seq<char>>)
    requires
        forall|n: int| 0 < n <= path.len() ==> agree(x, y, #[trigger] path.take(n)),
    ensures
        is_dropped(x, path) == is_dropped(y, path),
{
    if !is_dropped(x, path) {
        lemma_not_dropped(y, x, path);
    }
    if !is_dropped(y, path) {
        lemma_not_dropped(x, y, path);
    }
}

proof fn lemma_settled_key(x: Items, y: Items, key: Seq<char>)
    requires
        agree_key(x, y, key),
        is_settled(y, key),
    ensures
        is_settled(x, key),
{
    assert forall|path: Seq<Seq<char>>|
        path.len() > 0 && path[0] == key && #[trigger] x.dom().contains(path) implies !is_dropped(
        x,
        path,
    ) by {
        assert(agree(x, y, path));
        assert forall|n: int| 0 < n <= path.len() implies agree(x, y, #[trigger] path.take(n)) by {
            assert(path.take(n)[0] == key);
        }
        lemma_dropped_same(x, y, path);
    }
}

proof fn lemma_settled_entry(
    items: Items,
    table: Seq<char>,
    name: Seq<char>,
    fields: Seq<(Seq<char>, Seq<char>)>,
)
    requires
        is_settled(items, table),
        !is_braced(items, seq![table]),
    ensures
        is_settled(with_entry(items, table, name, fields), table),
{
    let after = with_entry(items, table, name, fields);
    assert forall|path: Seq<Seq<char>>|
        path.len() > 0 && path[0] == table && #[trigger] after.dom().contains(path) implies
        !is_dropped(after, path) by {
        lemma_entry_at(items, table, name, fields, path);
        if is_under(path, table, name) {
            assert forall|n: int| 0 < n < path.len() implies !is_braced(
                after,
                #[trigger] path.take(n),
            ) by {
                lemma_entry_at(items, table, name, fields, path.take(n));
                if n == 1 {
                    assert(path.take(1) =~= seq![table]);
                } else {
                    assert(path.take(n)[0] == path[0] && path.take(n)[1] == path[1]);
                }
            }
            if is_dropped(after, path) {
                let (n, m) = choose|n: int, m: int|
                    0 < n < m <= path.len() && is_braced(after, #[trigger] path.take(n))
                        && is_headed(after, #[trigger] path.take(m));
                assert(!is_braced(after, path.take(n)));
            }
        } else {
            assert forall|n: int| 0 < n <= path.len() implies agree(
                after,
                items,
                #[trigger] path.take(n),
            ) by {
                lemma_entry_at(items, table, name, fields, path.take(n));
                if n >= 2 {
                    assert(path.take(n)[0] == path[0] && path.take(n)[1] == path[1]);
                }
            }
            lemma_dropped_same(after, items, path);
        }
    }
}

/// Whether a path leads to what was copied into an entry, or into it.
spec fn is_below(
    path: Seq<Seq<char>>,
    table: Seq<char>,
    name: Seq<char>,
    key: Seq<char>,
) -> bool {
    is_under(path, table, name) && path.len() >= 3 && path[2] == key
}

proof fn lemma_below(path: Seq<Seq<char>>, table: Seq<char>, name: Seq<char>, key: Seq<char>)
    ensures
        seq![table, name, key].is_prefix_of(path) <==> is_below(path, table, name, key),
{
    let target = seq![table, name, key];
    if target.is_prefix_of(path) {
        assert(path.subrange(0, 3)[0] == path[0]);
        assert(path.subrange(0, 3)[1] == path[1]);
        assert(path.subrange(0, 3)[2] == path[2]);
    }
    if is_below(path, table, name, key) {
        assert(target =~= path.subrange(0, 3));
    }
}

proof fn lemma_settled_copy(
    items: Items,
    source: Seq<char>,
    table: Seq<char>,
    name: Seq<char>,
    key: Seq<char>,
)
    requires
        is_settled(items, table),
        is_settled(items, source),
        !is_braced(items, seq![table]),
        !is_braced(items, seq![table, name]),
    ensures
        is_settled(copied_items(items, source, table, name, key), table),
{
    let after = copied_items(items, source, table, name, key);
    if items.dom().contains(seq![source]) {
        assert forall|path: Seq<Seq<char>>|
            path.len() > 0 && path[0] == table && #[trigger] after.dom().contains(path) implies
            !is_dropped(after, path) by {
            lemma_below(path, table, name, key);
            if is_below(path, table, name, key) {
                let from = seq![source] + path.skip(3);
                assert(items.dom().contains(from));
                assert(from[0] == source);
                if is_dropped(after, path) {
                    let (n, m) = choose|n: int, m: int|
                        0 < n < m <= path.len() && is_braced(after, #[trigger] path.take(n))
                            && is_headed(after, #[trigger] path.take(m));
                    lemma_below(path.take(n), table, name, key);
                    lemma_below(path.take(m), table, name, key);
                    if n == 1 {
                        assert(path.take(1) =~= seq![table]);
                    } else if n == 2 {
                        assert(path.take(2) =~= seq![table, name]);
                    } else {
                        assert(path.take(n)[0] == path[0] && path.take(n)[1] == path[1]
                            && path.take(n)[2] == path[2]);
                        assert(path.take(m)[0] == path[0] && path.take(m)[1] == path[1]
                            && path.take(m)[2] == path[2]);
                        assert(from.take(n - 2) =~= seq![source] + path.take(n).skip(3));
                        assert(from.take(m - 2) =~= seq![source] + path.take(m).skip(3));
                        assert(is_braced(items, from.take(n - 2)));
                        assert(is_headed(items, from.take(m - 2)));
                        assert(is_dropped(items, from));
                    }
                }
            } else {
                assert forall|n: int| 0 < n <= path.len() implies agree(
                    after,
                    items,
                    #[trigger] path.take(n),
                ) by {
                    lemma_below(path.take(n), table, name, key);
                    if n >= 3 {
                        assert(path.take(n)[0] == path[0] && path.take(n)[1] == path[1]
                            && path.take(n)[2] == path[2]);
                    }
                }
                assert(path.take(path.len() as int) =~= path);
                lemma_dropped_same(after, items, path);
            }
        }
    }
}

/// An entry with copies: all else is as it was, and all is written where no braces are.
proof fn lemma_filled(
    items: Items,
    table: Seq<char>,
    name: Seq<char>,
    fields: Seq<(Seq<char>, Seq<char>)>,
    copies: Seq<(Seq<char>, Seq<char>)>,
)
    requires
        forall|i: int| 0 <= i < copies.len() ==> (#[trigger] copies[i]).0 != table,
    ensures
        ({
            let after = filled_items(items, table, name, fields, copies);
            &&& forall|path: Seq<Seq<char>>|
                !is_under(path, table, name) ==> #[trigger] agree(after, items, path)
            &&& after.dom().contains(seq![table, name])
            &&& after[seq![table, name]] is Table
            &&& is_settled(items, table) && !is_braced(items, seq![table]) && (forall|i: int|
                0 <= i < copies.len() ==> is_settled(items, (#[trigger] copies[i]).0))
                ==> is_settled(after, table)
        }),
    decreases copies.len(),
{
    let after = filled_items(items, table, name, fields, copies);
    let entry = seq![table, name];
    if copies.len() == 0 {
        assert forall|path: Seq<Seq<char>>| !is_under(path, table, name) implies #[trigger] agree(
            after,
            items,
            path,
        ) by {
            lemma_entry_at(items, table, name, fields, path);
        }
        lemma_entry_at(items, table, name, fields, entry);
        if is_settled(items, table) && !is_braced(items, seq![table]) {
            lemma_settled_entry(items, table, name, fields);
        }
    } else {
        let init = copies.drop_last();
        let (source, key) = copies.last();
        let before = filled_items(items, table, name, fields, init);
        assert forall|i: int| 0 <= i < init.len() implies (#[trigger] init[i]).0 != table by {
            assert(init[i] == copies[i]);
        }
        lemma_filled(items, table, name, fields, init);
        assert(copies[copies.len() - 1].0 == source);
        assert forall|path: Seq<Seq<char>>| !is_below(path, table, name, key) implies agree(
            after,
            before,
            path,
        ) by {
            lemma_below(path, table, name, key);
        }
        assert forall|path: Seq<Seq<char>>| !is_under(path, table, name) implies #[trigger] agree(
            after,
            items,
            path,
        ) by {
            assert(agree(after, before, path));
            assert(agree(before, items, path));
        }
        assert(agree(after, before, entry));
        if is_settled(items, table) && !is_braced(items, seq![table]) && (forall|i: int|
            0 <= i < copies.len() ==> is_settled(items, (#[trigger] copies[i]).0)) {
            assert forall|i: int| 0 <= i < init.len() implies is_settled(
                items,
                (#[trigger] init[i]).0,
            ) by {
                assert(init[i] == copies[i]);
            }
            assert(agree_key(before, items, source));
            lemma_settled_key(before, items, source);
            assert(agree(before, items, seq![table]));
            lemma_settled_copy(before, source, table, name, key);
        }
    }
}

/// An entry with copies is made of its strings and of what is copied alone.
proof fn lemma_filled_same(
    x: Items,
    y: Items,
    table: Seq<char>,
    name: Seq<char>,
    fields: Seq<(Seq<char>, Seq<char>)>,
    copies: Seq<(Seq<char>, Seq<char>)>,
)
    requires
        forall|i: int|
            0 <= i < copies.len() ==> (#[trigger] copies[i]).0 != table && agree_key(
                x,
                y,
                copies[i].0,
            ),
    ensures
        agree_under(
            filled_items(x, table, name, fields, copies),
            filled_items(y, table, name, fields, copies),
            table,
            name,
        ),
    decreases copies.len(),
{
    let x2 = filled_items(x, table, name, fields, copies);
    let y2 = filled_items(y, table, name, fields, copies);
    if copies.len() == 0 {
        assert forall|path: Seq<Seq<char>>| is_under(path, table, name) implies #[trigger] agree(
            x2,
            y2,
            path,
        ) by {
            lemma_entry_at(x, table, name, fields, path);
            lemma_entry_at(y, table, name, fields, path);
        }
    } else {
        let init = copies.drop_last();
        let (source, key) = copies.last();
        let x1 = filled_items(x, table, name, fields, init);
        let y1 = filled_items(y, table, name, fields, init);
        assert forall|i: int| 0 <= i < init.len() implies (#[trigger] init[i]).0 != table
            && agree_key(x, y, init[i].0) by {
            assert(init[i] == copies[i]);
        }
        lemma_filled_same(x, y, table, name, fields, init);
        lemma_filled(x, table, name, fields, init);
        lemma_filled(y, table, name, fields, init);
        assert(copies[copies.len() - 1].0 == source);
        assert forall|path: Seq<Seq<char>>| path.len() > 0 && path[0] == source implies agree(
            x1,
            y1,
            path,
        ) by {
            assert(agree(x1, x, path));
            assert(agree(y1, y, path));
            assert(agree(x, y, path));
        }
        assert(seq![source][0] == source);
        assert(agree(x1, y1, seq![source]));
        assert forall|path: Seq<Seq<char>>| is_under(path, table, name) implies #[trigger] agree(
            x2,
            y2,
            path,
        ) by {
            assert(agree(x1, y1, path));
            lemma_below(path, table, name, key);
            if is_below(path, table, name, key) {
                let from = seq![source] + path.skip(3);
                assert(from[0] == source);
                assert(agree(x1, y1, from));
            }
        }
    }
}

proof fn lemma_whole_settled(items: Items, key: Seq<char>)
    requires
        written(items) == items,
    ensures
        is_settled(items, key),
{
    assert forall|path: Seq<Seq<char>>|
        path.len() > 0 && path[0] == key && #[trigger] items.dom().contains(path) implies
        !is_dropped(items, path) by {
        assert(written(items).dom().contains(path));
    }
}

proof fn lemma_copies_outside(items: Items)
    ensures
        forall|i: int|
            0 <= i < credential_copies(items).len() ==> {
                let source = (#[trigger] credential_copies(items)[i]).0;
                source != "providers"@ && source != "model_profiles"@ && source
                    != "default_profile"@
            },
        forall|i: int|
            0 <= i < effort_copies().len() ==> {
                let source = (#[trigger] effort_copies()[i]).0;
                source != "providers"@ && source != "model_profiles"@ && source
                    != "default_profile"@
            },
{
    lemma_source_names();
}

/// Tables that are added leave all else as it was.
proof fn lemma_tables(items: Items)
    requires
        written(items) == items,
    ensures
        ({
            let after = table_items(table_items(items, "providers"@), "model_profiles"@);
            &&& forall|path: Seq<Seq<char>>|
                path != seq!["providers"@] && path != seq!["model_profiles"@] ==> #[trigger] agree(
                    after,
                    items,
                    path,
                )
            &&& after.dom().contains(seq!["providers"@])
            &&& after.dom().contains(seq!["model_profiles"@])
            &&& is_braced(after, seq!["providers"@]) == is_braced(items, seq!["providers"@])
            &&& is_braced(after, seq!["model_profiles"@]) == is_braced(
                items,
                seq!["model_profiles"@],
            )
            &&& forall|key: Seq<char>| #[trigger] is_settled(after, key)
        }),
{
    let after = table_items(table_items(items, "providers"@), "model_profiles"@);
    lemma_names_differ();
    assert forall|key: Seq<char>| #[trigger] is_settled(after, key) by {
        assert forall|path: Seq<Seq<char>>|
            path.len() > 0 && path[0] == key && #[trigger] after.dom().contains(path) implies
            !is_dropped(after, path) by {
            if path.len() > 1 {
                assert(agree(after, items, path));
                lemma_whole_settled(items, key);
                assert forall|n: int|
                    0 < n < path.len() && is_braced(after, #[trigger] path.take(n)) implies
                    is_braced(items, path.take(n)) by {}
                assert forall|m: int|
                    1 < m <= path.len() && is_headed(after, #[trigger] path.take(m)) implies
                    is_headed(items, path.take(m)) by {
                    assert(path.take(m).len() == m && seq!["providers"@].len() == 1
                        && seq!["model_profiles"@].len() == 1);
                    assert(agree(after, items, path.take(m)));
                }
                lemma_not_dropped(after, items, path);
            }
        }
    }
}

/// What a provider and a profile for a model without one change.
proof fn lemma_legacy_shape(items: Items, model: Seq<char>)
    requires
        written(items) == items,
    ensures
        ({
            let after = legacy_items(items, model);
            let provider = legacy_provider(items);
            let profile = legacy_profile(items, model);
            &&& forall|path: Seq<Seq<char>>|
                path != seq!["providers"@] && path != seq!["model_profiles"@] && path
                    != seq!["default_profile"@] && !is_under(path, "providers"@, provider)
                    && !is_under(path, "model_profiles"@, profile) ==> #[trigger] agree(
                    after,
                    items,
                    path,
                )
            &&& is_headed(after, seq!["providers"@, provider])
            &&& is_headed(after, seq!["model_profiles"@, profile])
            &&& !is_braced(items, seq!["providers"@]) ==> is_settled(after, "providers"@)
            &&& !is_braced(items, seq!["model_profiles"@]) ==> is_settled(after, "model_profiles"@)
            &&& after.dom().contains(seq!["default_profile"@])
            &&& items.dom().contains(seq!["default_profile"@]) ==> agree(
                after,
                items,
                seq!["default_profile"@],
            )
            &&& agree_under(
                after,
                filled_items(
                    items,
                    "providers"@,
                    provider,
                    legacy_provider_fields(items),
                    credential_copies(items),
                ),
                "providers"@,
                provider,
            )
            &&& agree_under(
                after,
                filled_items(
                    items,
                    "model_profiles"@,
                    profile,
                    legacy_fields(items, model),
                    effort_copies(),
                ),
                "model_profiles"@,
                profile,
            )
        }),
{
    let after = legacy_items(items, model);
    let provider = legacy_provider(items);
    let profile = legacy_profile(items, model);
    let fields = legacy_provider_fields(items);
    let copies = credential_copies(items);
    let own = legacy_fields(items, model);
    let b = table_items(table_items(items, "providers"@), "model_profiles"@);
    let f = filled_items(b, "providers"@, provider, fields, copies);
    let h = filled_items(f, "model_profiles"@, profile, own, effort_copies());
    lemma_names_differ();
    lemma_copies_outside(items);
    lemma_tables(items);
    lemma_filled(b, "providers"@, provider, fields, copies);
    lemma_filled(f, "model_profiles"@, profile, own, effort_copies());
    assert forall|path: Seq<Seq<char>>| path != seq!["default_profile"@] implies #[trigger] agree(
        after,
        h,
        path,
    ) by {}
    assert forall|path: Seq<Seq<char>>|
        path != seq!["providers"@] && path != seq!["model_profiles"@] && path
            != seq!["default_profile"@] && !is_under(path, "providers"@, provider) && !is_under(
            path,
            "model_profiles"@,
            profile,
        ) implies #[trigger] agree(after, items, path) by {
        assert(agree(after, h, path));
        assert(agree(h, f, path));
        assert(agree(f, b, path));
        assert(agree(b, items, path));
    }
    assert(agree(after, h, seq!["providers"@, provider]));
    assert(agree(h, f, seq!["providers"@, provider]));
    assert(agree(after, h, seq!["model_profiles"@, profile]));
    assert(agree(h, f, seq!["default_profile"@]));
    assert(agree(f, b, seq!["default_profile"@]));
    assert(agree(b, items, seq!["default_profile"@]));
    if !is_braced(items, seq!["providers"@]) {
        assert(is_settled(b, "providers"@));
        assert(is_settled(f, "providers"@));
        assert forall|path: Seq<Seq<char>>|
            path.len() > 0 && path[0] == "providers"@ implies #[trigger] agree(after, f, path) by {
            assert(agree(after, h, path));
            assert(agree(h, f, path));
        }
        lemma_settled_key(after, f, "providers"@);
    }
    if !is_braced(items, seq!["model_profiles"@]) {
        assert(is_settled(b, "model_profiles"@));
        assert(agree_key(f, b, "model_profiles"@));
        lemma_settled_key(f, b, "model_profiles"@);
        assert(agree(f, b, seq!["model_profiles"@]));
        assert forall|i: int| 0 <= i < effort_copies().len() implies is_settled(
            f,
            (#[trigger] effort_copies()[i]).0,
        ) by {
            let source = effort_copies()[i].0;
            assert(agree_key(f, b, source));
            assert(is_settled(b, source));
            lemma_settled_key(f, b, source);
        }
        assert(is_settled(h, "model_profiles"@));
        assert forall|path: Seq<Seq<char>>|
            path.len() > 0 && path[0] == "model_profiles"@ implies #[trigger] agree(
            after,
            h,
            path,
        ) by {}
        lemma_settled_key(after, h, "model_profiles"@);
    }
    // The two entries.
    assert forall|i: int| 0 <= i < copies.len() implies (#[trigger] copies[i]).0 != "providers"@
        && agree_key(b, items, copies[i].0) by {
        assert(seq!["providers"@][0] == "providers"@);
        assert(seq!["model_profiles"@][0] == "model_profiles"@);
    }
    lemma_filled_same(b, items, "providers"@, provider, fields, copies);
    let alone = filled_items(items, "providers"@, provider, fields, copies);
    assert forall|path: Seq<Seq<char>>|
        is_under(path, "providers"@, provider) implies #[trigger] agree(after, alone, path) by {
        assert(agree(after, h, path));
        assert(agree(h, f, path));
        assert(agree(f, alone, path));
    }
    assert forall|i: int| 0 <= i < effort_copies().len() implies (#[trigger] effort_copies()[i]).0
        != "model_profiles"@ && agree_key(f, items, effort_copies()[i].0) by {
        let source = effort_copies()[i].0;
        assert forall|path: Seq<Seq<char>>|
            path.len() > 0 && path[0] == source implies #[trigger] agree(f, items, path) by {
            assert(seq!["providers"@][0] == "providers"@);
            assert(seq!["model_profiles"@][0] == "model_profiles"@);
            assert(agree(f, b, path));
            assert(agree(b, items, path));
        }
    }
    lemma_filled_same(f, items, "model_profiles"@, profile, own, effort_copies());
    let own_alone = filled_items(items, "model_profiles"@, profile, own, effort_copies());
    assert forall|path: Seq<Seq<char>>|
        is_under(path, "model_profiles"@, profile) implies #[trigger] agree(
        after,
        own_alone,
        path,
    ) by {
        assert(agree(after, h, path));
        assert(agree(h, own_alone, path));
    }
}

/// Whether a path leads into the provider or the profile of a model that is configured
/// without one.
spec fn is_legacy(items: Items, path: Seq<Seq<char>>) -> bool {
    match legacy_model(items) {
        Some(model) => is_under(path, "providers"@, legacy_provider(items)) || is_under(
            path,
            "model_profiles"@,
            legacy_profile(items, model),
        ),
        None => false,
    }
}

/// What is changed before a profile is added.
proof fn lemma_prepared_shape(items: Items)
    requires
        written(items) == items,
    ensures
        ({
            let after = prepared_items(items);
            &&& forall|path: Seq<Seq<char>>|
                path != seq!["providers"@] && path != seq!["model_profiles"@] && path
                    != seq!["default_profile"@] && !is_legacy(items, path) ==> #[trigger] agree(
                    after,
                    items,
                    path,
                )
            &&& legacy_model(items) matches Some(model) ==> {
                &&& is_headed(after, seq!["providers"@, legacy_provider(items)])
                &&& is_headed(after, seq!["model_profiles"@, legacy_profile(items, model)])
                &&& after == legacy_items(items, model)
                &&& after.dom().contains(seq!["default_profile"@])
            }
            &&& !is_braced(items, seq!["providers"@]) ==> is_settled(after, "providers"@)
            &&& !is_braced(items, seq!["model_profiles"@]) ==> is_settled(after, "model_profiles"@)
            &&& items.dom().contains(seq!["default_profile"@]) || legacy_model(items) is None
                ==> agree(after, items, seq!["default_profile"@])
            &&& after.dom().contains(seq!["providers"@])
            &&& after.dom().contains(seq!["model_profiles"@])
            &&& is_braced(after, seq!["providers"@]) == is_braced(items, seq!["providers"@])
            &&& is_braced(after, seq!["model_profiles"@]) == is_braced(
                items,
                seq!["model_profiles"@],
            )
        }),
{
    lemma_names_differ();
    lemma_prepared_top(items, "providers"@);
    lemma_prepared_top(items, "model_profiles"@);
    assert(top_item(prepared_items(items), "providers"@) is Some);
    assert(top_item(prepared_items(items), "model_profiles"@) is Some);
    if legacy_model(items) is Some {
        let model = legacy_model(items)->Some_0;
        lemma_legacy_shape(items, model);
        lemma_legacy_top(items, model, "providers"@);
        lemma_legacy_top(items, model, "model_profiles"@);
        assert(top_item(legacy_items(items, model), "providers"@) is Some);
        assert(top_item(legacy_items(items, model), "model_profiles"@) is Some);
    } else {
        lemma_tables(items);
        let after = prepared_items(items);
        assert(is_settled(after, "providers"@));
        assert(is_settled(after, "model_profiles"@));
        assert(agree(after, items, seq!["default_profile"@]));
    }
}

/// What adding a profile changes.
proof fn lemma_added_shape(items: Items, s: SpecificationView)
    ensures
        ({
            let after = profile_items(items, s);
            let provider = provider_name_for(items, s);
            let profile = profile_name_for(
                entry_items(items, "providers"@, provider, provider_fields(s)),
                s,
                provider,
            );
            &&& forall|path: Seq<Seq<char>>|
                path != seq!["default_profile"@] && !is_under(path, "providers"@, provider)
                    && !is_under(path, "model_profiles"@, profile) ==> #[trigger] agree(
                    after,
                    items,
                    path,
                )
            &&& if has_entry(items, "providers"@, provider) {
                agree_under(after, items, "providers"@, provider)
            } else {
                is_headed(after, seq!["providers"@, provider])
            }
            &&& if has_entry(items, "model_profiles"@, profile) {
                agree_under(after, items, "model_profiles"@, profile)
            } else {
                is_headed(after, seq!["model_profiles"@, profile])
            }
            &&& has_entry(after, "providers"@, provider)
            &&& has_entry(after, "model_profiles"@, profile)
            &&& is_settled(items, "providers"@) && !is_braced(items, seq!["providers"@])
                ==> is_settled(after, "providers"@)
            &&& is_settled(items, "model_profiles"@) && !is_braced(items, seq!["model_profiles"@])
                ==> is_settled(after, "model_profiles"@)
            &&& after.dom().contains(seq!["default_profile"@])
            &&& items.dom().contains(seq!["default_profile"@]) ==> agree(
                after,
                items,
                seq!["default_profile"@],
            )
        }),
{
    lemma_names_differ();
    let after = profile_items(items, s);
    let provider = provider_name_for(items, s);
    let fields = provider_fields(s);
    let a = entry_items(items, "providers"@, provider, fields);
    let profile = profile_name_for(a, s, provider);
    let own = profile_fields(s, provider);
    let b = entry_items(a, "model_profiles"@, profile, own);
    lemma_entry_added(items, "providers"@, provider, fields);
    lemma_entry_added(a, "model_profiles"@, profile, own);
    lemma_entry_at(items, "providers"@, provider, fields, seq!["providers"@, provider]);
    lemma_entry_at(a, "model_profiles"@, profile, own, seq!["model_profiles"@, profile]);
    assert forall|path: Seq<Seq<char>>| path != seq!["default_profile"@] implies #[trigger] agree(
        after,
        b,
        path,
    ) by {}
    assert forall|path: Seq<Seq<char>>|
        path != seq!["default_profile"@] && !is_under(path, "providers"@, provider) && !is_under(
            path,
            "model_profiles"@,
            profile,
        ) implies #[trigger] agree(after, items, path) by {
        assert(agree(after, b, path));
        assert(agree(b, a, path));
        assert(agree(a, items, path));
    }
    assert forall|path: Seq<Seq<char>>|
        is_under(path, "providers"@, provider) implies #[trigger] agree(after, a, path) by {
        assert(agree(after, b, path));
        assert(agree(b, a, path));
    }
    assert forall|path: Seq<Seq<char>>|
        is_under(path, "model_profiles"@, profile) implies #[trigger] agree(a, items, path) by {}
    assert forall|path: Seq<Seq<char>>|
        is_under(path, "model_profiles"@, profile) implies #[trigger] agree(after, b, path) by {}
    assert(agree(after, a, seq!["providers"@, provider]));
    assert(agree(after, b, seq!["model_profiles"@, profile]));
    assert(agree(a, items, seq!["model_profiles"@, profile]));
    if has_entry(items, "providers"@, provider) {
        assert forall|path: Seq<Seq<char>>|
            is_under(path, "providers"@, provider) implies #[trigger] agree(
            after,
            items,
            path,
        ) by {
            assert(agree(after, a, path));
        }
    }
    if has_entry(items, "model_profiles"@, profile) {
        assert forall|path: Seq<Seq<char>>|
            is_under(path, "model_profiles"@, profile) implies #[trigger] agree(
            after,
            items,
            path,
        ) by {
            assert(agree(after, b, path));
            assert(agree(a, items, path));
        }
    }
    assert(agree(b, a, seq!["default_profile"@]));
    assert(agree(a, items, seq!["default_profile"@]));
    if is_settled(items, "providers"@) && !is_braced(items, seq!["providers"@]) {
        if !has_entry(items, "providers"@, provider) {
            lemma_settled_entry(items, "providers"@, provider, fields);
        }
        assert forall|path: Seq<Seq<char>>|
            path.len() > 0 && path[0] == "providers"@ implies #[trigger] agree(after, a, path) by {
            assert(agree(after, b, path));
            assert(agree(b, a, path));
        }
        lemma_settled_key(after, a, "providers"@);
    }
    if is_settled(items, "model_profiles"@) && !is_braced(items, seq!["model_profiles"@]) {
        assert(agree_key(a, items, "model_profiles"@));
        lemma_settled_key(a, items, "model_profiles"@);
        assert(agree(a, items, seq!["model_profiles"@]));
        if !has_entry(a, "model_profiles"@, profile) {
            lemma_settled_entry(a, "model_profiles"@, profile, own);
        }
        assert forall|path: Seq<Seq<char>>|
            path.len() > 0 && path[0] == "model_profiles"@ implies #[trigger] agree(
            after,
            b,
            path,
        ) by {}
        lemma_settled_key(after, b, "model_profiles"@);
    }
}

/// The name of the provider of a profile that is added.
pub open spec fn added_provider(items: Items, s: SpecificationView) -> Seq<char> {
    provider_name_for(prepared_items(items), s)
}

/// The name of a profile that is added.
pub open spec fn added_profile(items: Items, s: SpecificationView) -> Seq<char> {
    let provider = added_provider(items, s);
    profile_name_for(
        entry_items(prepared_items(items), "providers"@, provider, provider_fields(s)),
        s,
        provider,
    )
}

/// Whether a path leads into an entry that was added to a table.
spec fn is_new(items: Items, s: SpecificationView, table: Seq<char>, path: Seq<Seq<char>>) -> bool {
    let provider = added_provider(items, s);
    let profile = added_profile(items, s);
    &&& path.len() >= 2 && path[0] == table
    &&& {
        ||| is_legacy(items, path)
        ||| is_under(path, "providers"@, provider) && !has_entry(
            prepared_items(items),
            "providers"@,
            provider,
        )
        ||| is_under(path, "model_profiles"@, profile) && !has_entry(
            prepared_items(items),
            "model_profiles"@,
            profile,
        )
    }
}

/// Whether a path leads into an entry that was added to a table between braces.
spec fn is_lost(items: Items, s: SpecificationView, path: Seq<Seq<char>>) -> bool {
    ||| is_braced(items, seq!["providers"@]) && is_new(items, s, "providers"@, path)
    ||| is_braced(items, seq!["model_profiles"@]) && is_new(items, s, "model_profiles"@, path)
}

/// What is added to a table is as it was before, but for new entries, and those are tables
/// with headers.
proof fn lemma_added_entry(items: Items, s: SpecificationView, path: Seq<Seq<char>>)
    requires
        is_whole(items),
        path.len() >= 2,
        path[0] == "providers"@ || path[0] == "model_profiles"@,
    ensures
        !is_new(items, s, path[0], path) ==> agree(added_items(items, s), items, path),
        is_new(items, s, path[0], path) ==> is_headed(added_items(items, s), path.take(2)),
{
    lemma_names_differ();
    lemma_prepared_shape(items);
    let c = prepared_items(items);
    lemma_added_shape(c, s);
    let after = added_items(items, s);
    let entry = path.take(2);
    assert(entry =~= seq![path[0], path[1]]);
    let provider = added_provider(items, s);
    let profile = added_profile(items, s);
    if is_new(items, s, path[0], path) {
        if is_legacy(items, path) {
            assert(is_headed(c, entry));
            if is_under(path, "providers"@, provider) {
                assert(has_entry(c, "providers"@, provider));
                assert(agree(after, c, entry));
            } else if is_under(path, "model_profiles"@, profile) {
                assert(has_entry(c, "model_profiles"@, profile));
                assert(agree(after, c, entry));
            } else {
                assert(agree(after, c, entry));
            }
        }
    } else {
        assert(agree(c, items, path));
        assert(agree(after, c, path));
    }
}

/// All that a document holds after a profile was added is written, but for what was added
/// to tables between braces.
proof fn lemma_written_shape(items: Items, s: SpecificationView, path: Seq<Seq<char>>)
    requires
        is_whole(items),
    ensures
        ({
            let added = added_items(items, s);
            &&& !is_lost(items, s, path) ==> agree(written(added), added, path)
            &&& is_lost(items, s, path) ==> !written(added).dom().contains(path)
        }),
{
    lemma_names_differ();
    lemma_prepared_shape(items);
    let c = prepared_items(items);
    lemma_added_shape(c, s);
    let added = added_items(items, s);
    assert(agree(added, c, seq!["providers"@]));
    assert(agree(added, c, seq!["model_profiles"@]));
    if is_lost(items, s, path) {
        lemma_added_entry(items, s, path);
        assert(path.take(1) =~= seq![path[0]]);
        assert(is_braced(added, path.take(1)) && is_headed(added, path.take(2)));
        assert(is_dropped(added, path));
    } else if added.dom().contains(path) {
        if path.len() >= 2 {
            let key = path[0];
            assert(path.take(1) =~= seq![key]);
            if key == "providers"@ || key == "model_profiles"@ {
                if is_braced(items, seq![key]) {
                    assert forall|n: int| 0 < n <= path.len() implies agree(
                        added,
                        items,
                        #[trigger] path.take(n),
                    ) by {
                        let part = path.take(n);
                        assert(part[0] == key);
                        if n >= 2 {
                            assert(part[1] == path[1]);
                            assert(!is_new(items, s, key, part));
                            lemma_added_entry(items, s, part);
                        } else {
                            lemma_prepared_top(items, key);
                            assert(top_item(items, key) is Some);
                        }
                    }
                    assert(path.take(path.len() as int) =~= path);
                    lemma_whole_settled(items, key);
                    lemma_dropped_same(added, items, path);
                } else {
                    assert(is_settled(added, key));
                }
            } else {
                assert(agree(c, items, path));
                assert(agree(added, c, path));
                lemma_whole_settled(items, key);
                assert forall|n: int|
                    0 < n < path.len() && is_braced(added, #[trigger] path.take(n)) implies
                    is_braced(items, path.take(n)) by {
                    let part = path.take(n);
                    assert(part[0] == key);
                    assert(items.dom().contains(part));
                    assert(part != seq!["providers"@]) by {
                        assert(seq!["providers"@][0] == "providers"@);
                    }
                    assert(part != seq!["model_profiles"@]) by {
                        assert(seq!["model_profiles"@][0] == "model_profiles"@);
                    }
                    if part == seq!["default_profile"@] {
                        assert(agree(c, items, part));
                        assert(agree(added, c, part));
                    } else {
                        assert(agree(c, items, part));
                        assert(agree(added, c, part));
                    }
                }
                assert forall|m: int|
                    1 < m <= path.len() && is_headed(added, #[trigger] path.take(m)) implies
                    is_headed(items, path.take(m)) by {
                    let part = path.take(m);
                    assert(part[0] == key);
                    assert(agree(c, items, part));
                    assert(agree(added, c, part));
                }
                lemma_not_dropped(added, items, path);
            }
        }
        assert(!is_dropped(added, path));
    }
}

/// The names of all entries of a table.
proof fn lemma_names(paths: Set<Seq<Seq<char>>>, table: Seq<char>) -> (names: Seq<Seq<char>>)
    requires
        paths.finite(),
    ensures
        forall|name: Seq<char>| paths.contains(#[trigger] seq2(table, name)) ==> names.contains(name),
    decreases paths.len(),
{
    if paths.len() == 0 {
        assert(paths =~= Set::empty());
        Seq::empty()
    } else {
        let path = paths.choose();
        let rest = lemma_names(paths.remove(path), table);
        if path.len() == 2 {
            let names = rest.push(path[1]);
            assert forall|name: Seq<char>| paths.contains(
                #[trigger] seq2(table, name),
            ) implies names.contains(name) by {
                lemma_push_contains(rest, path[1], name);
                if seq2(table, name) == path {
                    assert(path[1] == name);
                } else {
                    assert(paths.remove(path).contains(seq2(table, name)));
                }
            }
            names
        } else {
            assert forall|name: Seq<char>| paths.contains(
                #[trigger] seq2(table, name),
            ) implies rest.contains(name) by {
                assert(seq2(table, name).len() == 2);
                assert(paths.remove(path).contains(seq2(table, name)));
            }
            rest
        }
    }
}

spec fn seq2(a: Seq<char>, b: Seq<char>) -> Seq<Seq<char>> {
    seq![a, b]
}

proof fn lemma_prepared_names(items: Items, table: Seq<char>) -> (names: Seq<Seq<char>>)
    requires
        is_whole(items),
        table == "providers"@ || table == "model_profiles"@,
    ensures
        lists_all(prepared_items(items), table, names),
{
    lemma_names_differ();
    lemma_prepared_shape(items);
    let own = lemma_names(items.dom(), table);
    let c = prepared_items(items);
    let more = if legacy_model(items) is Some {
        if table == "providers"@ {
            own.push(legacy_provider(items))
        } else {
            own.push(legacy_profile(items, legacy_model(items)->Some_0))
        }
    } else {
        own
    };
    assert forall|name: Seq<char>| #[trigger] has_entry(c, table, name) implies more.contains(
        name,
    ) by {
        let path = seq![table, name];
        assert(path[0] == table && path[1] == name);
        if more.len() > own.len() {
            lemma_push_contains(own, more.last(), name);
        }
        if !is_legacy(items, path) {
            assert(agree(c, items, path));
            assert(items.dom().contains(seq2(table, name)));
        }
    }
    more
}

/// The strings at the top are read alike after a profile was added.
proof fn lemma_tops_written(items: Items, s: SpecificationView, key: Seq<char>)
    requires
        is_whole(items),
        key != "providers"@,
        key != "model_profiles"@,
        key != "default_profile"@,
    ensures
        agree_key(written(added_items(items, s)), items, key),
        top_string(written(added_items(items, s)), key) == top_string(items, key),
{
    lemma_prepared_shape(items);
    lemma_added_shape(prepared_items(items), s);
    let c = prepared_items(items);
    let added = added_items(items, s);
    assert forall|path: Seq<Seq<char>>| path.len() > 0 && path[0] == key implies #[trigger] agree(
        written(added),
        items,
        path,
    ) by {
        lemma_written_shape(items, s, path);
        assert(seq!["providers"@][0] == "providers"@);
        assert(seq!["model_profiles"@][0] == "model_profiles"@);
        assert(seq!["default_profile"@][0] == "default_profile"@);
        assert(agree(c, items, path));
        assert(agree(added, c, path));
    }
    assert(seq![key][0] == key);
    assert(agree(written(added), items, seq![key]));
}

/// Whether a key is none of those that adding a profile sets.
spec fn is_other_key(key: Seq<char>) -> bool {
    key != "providers"@ && key != "model_profiles"@ && key != "default_profile"@
}

proof fn lemma_other_keys()
    ensures
        is_other_key("model"@),
        is_other_key("openai_base_url"@),
        is_other_key("openai_provider_name"@),
        is_other_key("openai_protocol"@),
{
    reveal_strlit("providers");
    reveal_strlit("model_profiles");
    reveal_strlit("default_profile");
    reveal_strlit("model");
    reveal_strlit("openai_base_url");
    reveal_strlit("openai_provider_name");
    reveal_strlit("openai_protocol");
    assert("providers"@[0] == 'p');
    assert("model_profiles"@[0] == 'm');
    assert("model_profiles"@.len() == 14);
    assert("default_profile"@[0] == 'd');
    assert("model"@[0] == 'm');
    assert("model"@.len() == 5);
    assert("openai_base_url"@[0] == 'o');
    assert("openai_provider_name"@[0] == 'o');
    assert("openai_protocol"@[0] == 'o');
}

proof fn lemma_written_twice(items: Items)
    ensures
        written(written(items)) == written(items),
{
    let once = written(items);
    assert forall|path: Seq<Seq<char>>| #[trigger] once.dom().contains(path) implies !is_dropped(
        once,
        path,
    ) by {
        assert(!is_dropped(items, path));
        lemma_not_dropped(once, items, path);
    }
    assert(written(once) =~= once);
}

/// Of the entries that a profile was added to, a document that was written and read again
/// holds all or nothing.
proof fn lemma_written_between(items: Items, s: SpecificationView)
    requires
        is_whole(items),
        legacy_model(items) is None || !is_braced(items, seq!["providers"@]) && !is_braced(
            items,
            seq!["model_profiles"@],
        ),
    ensures
        is_between(prepared_items(items), written(added_items(items, s)), s),
{
    lemma_names_differ();
    lemma_prepared_shape(items);
    let c = prepared_items(items);
    lemma_added_shape(c, s);
    let added = added_items(items, s);
    let once = written(added);
    let provider = added_provider(items, s);
    let profile = added_profile(items, s);
    assert forall|path: Seq<Seq<char>>|
        !is_under(path, "providers"@, provider) && !is_under(
            path,
            "model_profiles"@,
            profile,
        ) implies #[trigger] agree(once, added, path) by {
        lemma_written_shape(items, s, path);
    }
    lemma_entry_between(items, s, once, "providers"@, provider);
    lemma_entry_between(items, s, once, "model_profiles"@, profile);
}

proof fn lemma_entry_between(
    items: Items,
    s: SpecificationView,
    between: Items,
    table: Seq<char>,
    name: Seq<char>,
)
    requires
        is_whole(items),
        table == "providers"@ && name == added_provider(items, s) || table == "model_profiles"@
            && name == added_profile(items, s),
        agree_under(between, written(added_items(items, s)), table, name),
        !is_legacy(items, seq![table, name]) || !is_braced(items, seq![table]),
    ensures
        agree_under(between, added_items(items, s), table, name) || agree_under(
            between,
            prepared_items(items),
            table,
            name,
        ),
{
    lemma_names_differ();
    lemma_prepared_shape(items);
    let c = prepared_items(items);
    let added = added_items(items, s);
    let once = written(added);
    let entry = seq![table, name];
    if is_braced(items, seq![table]) && !has_entry(c, table, name) {
        assert forall|path: Seq<Seq<char>>| is_under(path, table, name) implies #[trigger] agree(
            between,
            c,
            path,
        ) by {
            assert(agree(between, once, path));
            lemma_written_shape(items, s, path);
            assert(is_lost(items, s, path));
            assert(path.take(2) =~= entry);
            assert(agree(c, items, path));
            assert(agree(c, items, entry));
            if items.dom().contains(path) {
                assert(items.dom().contains(path.take(2)));
            }
        }
    } else {
        assert forall|path: Seq<Seq<char>>| is_under(path, table, name) implies #[trigger] agree(
            between,
            added,
            path,
        ) by {
            assert(agree(between, once, path));
            lemma_written_shape(items, s, path);
            assert(!is_lost(items, s, path));
        }
    }
}

proof fn lemma_tables_written(items: Items, s: SpecificationView)
    requires
        is_whole(items),
    ensures
        ({
            let once = written(added_items(items, s));
            &&& once.dom().contains(seq!["providers"@])
            &&& once.dom().contains(seq!["model_profiles"@])
            &&& once.dom().contains(seq!["default_profile"@])
            &&& is_braced(once, seq!["providers"@]) == is_braced(items, seq!["providers"@])
            &&& is_braced(once, seq!["model_profiles"@]) == is_braced(
                items,
                seq!["model_profiles"@],
            )
            &&& legacy_model(once) is None ==> prepared_items(once) == once
        }),
{
    lemma_names_differ();
    lemma_prepared_shape(items);
    let c = prepared_items(items);
    lemma_added_shape(c, s);
    let added = added_items(items, s);
    lemma_written_shape(items, s, seq!["providers"@]);
    lemma_written_shape(items, s, seq!["model_profiles"@]);
    lemma_written_shape(items, s, seq!["default_profile"@]);
    assert(agree(added, c, seq!["providers"@]));
    assert(agree(added, c, seq!["model_profiles"@]));
}

/// The entries of the table of profiles that are read again make that no model is without
/// a profile that had one, or that got one.
proof fn lemma_no_legacy(items: Items, s: SpecificationView)
    requires
        is_whole(items),
        legacy_model(items) is None || !is_braced(items, seq!["model_profiles"@]),
    ensures
        legacy_model(written(added_items(items, s))) is None,
{
    lemma_names_differ();
    lemma_other_keys();
    lemma_tops_written(items, s, "model"@);
    lemma_prepared_shape(items);
    let c = prepared_items(items);
    let once = written(added_items(items, s));
    if legacy_model(items) is Some {
        let name = legacy_profile(items, legacy_model(items)->Some_0);
        let entry = seq!["model_profiles"@, name];
        assert(entry.take(2) =~= entry);
        lemma_added_entry(items, s, entry);
        lemma_written_shape(items, s, entry);
        assert(has_entry(once, "model_profiles"@, name));
    } else if exists|name: Seq<char>| has_entry(items, "model_profiles"@, name) {
        let name = choose|name: Seq<char>| has_entry(items, "model_profiles"@, name);
        let entry = seq!["model_profiles"@, name];
        assert(agree(c, items, entry));
        assert(has_entry(c, "model_profiles"@, name));
        lemma_added_entry(items, s, entry);
        lemma_written_shape(items, s, entry);
        assert(has_entry(once, "model_profiles"@, name));
    }
}

/// A model without a profile gets the same one again, where the table of profiles is one
/// between braces.
proof fn lemma_legacy_again(items: Items, s: SpecificationView)
    requires
        is_whole(items),
        legacy_model(items) is Some,
        is_braced(items, seq!["model_profiles"@]),
    ensures
        is_between(prepared_items(items), prepared_items(written(added_items(items, s))), s),
{
    lemma_names_differ();
    lemma_other_keys();
    let added = added_items(items, s);
    let once = written(added);
    let c = prepared_items(items);
    let model = legacy_model(items)->Some_0;
    lemma_tops_written(items, s, "model"@);
    lemma_tops_written(items, s, "openai_base_url"@);
    lemma_tops_written(items, s, "openai_provider_name"@);
    lemma_tops_written(items, s, "openai_protocol"@);
    lemma_prepared_shape(items);
    lemma_added_shape(c, s);
    lemma_tables_written(items, s);
    assert forall|name: Seq<char>| !has_entry(once, "model_profiles"@, name) by {
        let entry = seq!["model_profiles"@, name];
        assert(entry.take(2) =~= entry);
        lemma_written_shape(items, s, entry);
        lemma_added_entry(items, s, entry);
        if !is_new(items, s, "model_profiles"@, entry) {
            assert(!has_entry(items, "model_profiles"@, name));
        }
    }
    assert(legacy_model(once) == Some(model));
    lemma_written_twice(added);
    lemma_prepared_shape(once);
    let again = prepared_items(once);
    let provider = legacy_provider(items);
    let profile = legacy_profile(items, model);
    assert(legacy_provider(once) == provider);
    assert(legacy_profile(once, model) == profile);
    assert(legacy_provider_fields(once) == legacy_provider_fields(items));
    assert(credential_copies(once) == credential_copies(items));
    lemma_legacy_shape(items, model);
    lemma_legacy_shape(once, model);
    lemma_copies_outside(items);
    let fields = legacy_provider_fields(items);
    let copies = credential_copies(items);
    let own = legacy_fields(items, model);
    assert(legacy_fields(once, model) == own);
    assert forall|i: int| 0 <= i < copies.len() implies (#[trigger] copies[i]).0 != "providers"@
        && agree_key(once, items, copies[i].0) by {
        lemma_tops_written(items, s, copies[i].0);
    }
    assert forall|i: int| 0 <= i < effort_copies().len() implies (#[trigger] effort_copies()[i]).0
        != "model_profiles"@ && agree_key(once, items, effort_copies()[i].0) by {
        lemma_tops_written(items, s, effort_copies()[i].0);
    }
    lemma_filled_same(once, items, "providers"@, provider, fields, copies);
    lemma_filled_same(once, items, "model_profiles"@, profile, own, effort_copies());
    let p1 = filled_items(items, "providers"@, provider, fields, copies);
    let p2 = filled_items(once, "providers"@, provider, fields, copies);
    let q1 = filled_items(items, "model_profiles"@, profile, own, effort_copies());
    let q2 = filled_items(once, "model_profiles"@, profile, own, effort_copies());
    assert forall|path: Seq<Seq<char>>| is_legacy(items, path) implies #[trigger] agree(
        again,
        c,
        path,
    ) by {
        if is_under(path, "providers"@, provider) {
            assert(agree(again, p2, path));
            assert(agree(p2, p1, path));
            assert(agree(c, p1, path));
        } else {
            assert(agree(again, q2, path));
            assert(agree(q2, q1, path));
            assert(agree(c, q1, path));
        }
    }
    let chosen = added_provider(items, s);
    let named = added_profile(items, s);
    assert forall|path: Seq<Seq<char>>|
        !is_under(path, "providers"@, chosen) && !is_under(
            path,
            "model_profiles"@,
            named,
        ) implies #[trigger] agree(again, added, path) by {
        lemma_written_shape(items, s, path);
        if is_legacy(items, path) {
            assert(agree(again, c, path));
            assert(path != seq!["default_profile"@]);
            assert(agree(added, c, path));
        } else {
            assert(!is_lost(items, s, path));
            assert(agree(once, added, path));
            if path == seq!["providers"@] {
                lemma_prepared_top(once, "providers"@);
                assert(top_item(once, "providers"@) is Some);
            } else if path == seq!["model_profiles"@] {
                lemma_prepared_top(once, "model_profiles"@);
                assert(top_item(once, "model_profiles"@) is Some);
            } else {
                assert(!is_legacy(once, path));
                assert(agree(again, once, path));
            }
        }
    }
    lemma_legacy_entry(items, s, again, "providers"@, chosen);
    lemma_legacy_entry(items, s, again, "model_profiles"@, named);
}

proof fn lemma_legacy_entry(
    items: Items,
    s: SpecificationView,
    again: Items,
    table: Seq<char>,
    name: Seq<char>,
)
    requires
        is_whole(items),
        table == "providers"@ && name == added_provider(items, s) || table == "model_profiles"@
            && name == added_profile(items, s),
        legacy_model(items) is Some,
        forall|path: Seq<Seq<char>>|
            is_legacy(items, path) ==> #[trigger] agree(again, prepared_items(items), path),
        forall|path: Seq<Seq<char>>|
            path != seq!["providers"@] && path != seq!["model_profiles"@] && path
                != seq!["default_profile"@] && !is_legacy(items, path) ==> #[trigger] agree(
                again,
                written(added_items(items, s)),
                path,
            ),
    ensures
        agree_under(again, added_items(items, s), table, name) || agree_under(
            again,
            prepared_items(items),
            table,
            name,
        ),
{
    lemma_names_differ();
    let entry = seq![table, name];
    let once = written(added_items(items, s));
    if is_legacy(items, entry) {
        assert forall|path: Seq<Seq<char>>| is_under(path, table, name) implies #[trigger] agree(
            again,
            prepared_items(items),
            path,
        ) by {
            assert(is_legacy(items, path));
        }
    } else {
        assert forall|path: Seq<Seq<char>>| is_under(path, table, name) implies #[trigger] agree(
            again,
            once,
            path,
        ) by {
            assert(!is_legacy(items, path));
        }
        lemma_entry_between(items, s, again, table, name);
    }
}

/// Where the provider of a model without a profile is written nowhere, and the same name is
/// found for the provider without it, nothing more is written.
proof fn lemma_forgotten_provider(items: Items, s: SpecificationView)
    requires
        is_whole(items),
        forgets_provider(items),
        provider_name_for(written(added_items(items, s)), s) == added_provider(items, s),
    ensures
        ({
            let once = written(added_items(items, s));
            written(added_items(once, s)) == once
        }),
{
    lemma_names_differ();
    let added = added_items(items, s);
    let once = written(added);
    let c = prepared_items(items);
    let provider = added_provider(items, s);
    let profile = added_profile(items, s);
    let fields = provider_fields(s);
    let own = profile_fields(s, provider);
    let a = entry_items(c, "providers"@, provider, fields);
    let b = entry_items(a, "model_profiles"@, profile, own);
    let three = ("provider"@, Some(provider));
    let four = ("model"@, Some(s.model));
    lemma_no_legacy(items, s);
    lemma_tables_written(items, s);
    lemma_prepared_shape(items);
    lemma_added_shape(c, s);
    lemma_entry_added(c, "providers"@, provider, fields);
    lemma_entry_added(a, "model_profiles"@, profile, own);
    lemma_profile_fields(s, provider);
    let names = lemma_prepared_names(items, "model_profiles"@);
    let a2 = entry_items(once, "providers"@, provider, fields);
    lemma_entry_added(once, "providers"@, provider, fields);
    // The profiles are those that were written.
    assert forall|path: Seq<Seq<char>>|
        path.len() >= 2 && path[0] == "model_profiles"@ implies #[trigger] agree(a2, b, path) by {
        assert(agree(a2, once, path));
        lemma_written_shape(items, s, path);
        assert(agree(once, added, path));
        assert(path != seq!["default_profile"@]);
        assert(agree(added, b, path));
    }
    assert forall|n: Seq<char>|
        #![trigger has_entry(a, "model_profiles"@, n)]
        n != profile && has_entry(a, "model_profiles"@, n) implies has_entry(
        a2,
        "model_profiles"@,
        n,
    ) && entry_wanted(a2, "model_profiles"@, n, three, four) == entry_wanted(
        a,
        "model_profiles"@,
        n,
        three,
        four,
    ) by {
        assert forall|path: Seq<Seq<char>>|
            is_under(path, "model_profiles"@, n) implies #[trigger] agree(a2, a, path) by {
            assert(agree(a2, b, path));
            assert(agree(b, a, path));
        }
        lemma_others_wanted(a2, a, "model_profiles"@, n, three, four);
    }
    assert(agree_under(a2, b, "model_profiles"@, profile));
    lemma_others_wanted(a2, b, "model_profiles"@, profile, three, four);
    assert(lists_all(a, "model_profiles"@, names)) by {
        assert forall|n: Seq<char>| #[trigger] has_entry(
            a,
            "model_profiles"@,
            n,
        ) implies names.contains(n) by {
            assert(agree(a, c, seq!["model_profiles"@, n]));
            assert(has_entry(c, "model_profiles"@, n));
        }
    }
    lemma_chosen_again(
        s.id + "-"@ + slugged(s.model),
        a,
        a2,
        "model_profiles"@,
        three,
        four,
        names,
    );
    assert(profile_name_for(a2, s, provider) == profile);
    assert(has_entry(a2, "model_profiles"@, profile));
    assert(agree(a2, once, seq!["default_profile"@]));
    assert(added_items(once, s) == a2);
    // The provider is written no more than before.
    lemma_written_twice(added);
    assert(agree(a2, once, seq!["providers"@]));
    assert forall|path: Seq<Seq<char>>| #[trigger] agree(written(a2), once, path) by {
        if is_under(path, "providers"@, provider) && !has_entry(once, "providers"@, provider) {
            let entry = seq!["providers"@, provider];
            assert(path.take(1) =~= seq!["providers"@]);
            assert(path.take(2) =~= entry);
            lemma_entry_at(once, "providers"@, provider, fields, entry);
            assert(is_braced(a2, path.take(1)) && is_headed(a2, path.take(2)));
            assert(is_dropped(a2, path));
            lemma_written_shape(items, s, path);
            lemma_written_shape(items, s, entry);
            if !is_lost(items, s, path) {
                assert(!is_new(items, s, "providers"@, entry));
                assert(has_entry(added, "providers"@, provider));
                assert(agree(once, added, entry));
            }
        } else {
            assert(agree(a2, once, path));
            assert forall|n: int| 0 < n <= path.len() implies agree(
                a2,
                once,
                #[trigger] path.take(n),
            ) by {
                if n >= 2 {
                    assert(path.take(n)[0] == path[0] && path.take(n)[1] == path[1]);
                }
            }
            lemma_dropped_same(a2, once, path);
            if once.dom().contains(path) {
                assert(written(once).dom().contains(path));
            }
        }
    }
    lemma_agree_everywhere(written(a2), once);
}

/// Whether a model has no profile, its provider goes into a table between braces, where it
/// is not written, but its profile is written: it is not without a profile any more when
/// the document is read again, and its provider is not there.
pub open spec fn forgets_provider(items: Items) -> bool {
    &&& legacy_model(items) is Some
    &&& is_braced(items, seq!["providers"@])
    &&& !is_braced(items, seq!["model_profiles"@])
}

/// Adding the same profile once more changes nothing, in every configuration: what is
/// written of it, read again and added to, is written as it was, with the same providers,
/// profiles and default profile. Where the provider of a model without a profile is not
/// written, the name of the provider must be the one that is found without it.
pub proof fn law_profile_added_once(items: Items, s: SpecificationView)
    requires
        is_whole(items),
        has_open_tables(items),
        forgets_provider(items) ==> provider_name_for(written(added_items(items, s)), s)
            == added_provider(items, s),
    ensures
        ({
            let once = written(added_items(items, s));
            &&& has_open_tables(once)
            &&& written(added_items(once, s)) == once
        }),
{
    lemma_names_differ();
    let added = added_items(items, s);
    let once = written(added);
    let c = prepared_items(items);
    lemma_tables_written(items, s);
    lemma_prepared_shape(items);
    lemma_prepared_open(items);
    lemma_added_shape(c, s);
    lemma_written_shape(items, s, seq!["providers"@]);
    lemma_written_shape(items, s, seq!["model_profiles"@]);
    assert(agree(added, c, seq!["providers"@]));
    assert(agree(added, c, seq!["model_profiles"@]));
    if forgets_provider(items) {
        lemma_forgotten_provider(items, s);
    } else {
        let names = (
            lemma_prepared_names(items, "providers"@),
            lemma_prepared_names(items, "model_profiles"@),
        );
        if legacy_model(items) is Some && is_braced(items, seq!["model_profiles"@]) {
            lemma_legacy_again(items, s);
        } else {
            lemma_no_legacy(items, s);
            lemma_written_between(items, s);
        }
        lemma_between(c, prepared_items(once), s, names);
    }
}

/// The text that a profile was added to, added to once more, holds what it held: the second
/// text is read as the first one is, with the same providers, profiles and default profile.
/// It is asked that the layout could be kept, and what the law on items asks.
pub proof fn law_text_added_once(
    document: toml_edit::DocumentMut,
    first: Seq<char>,
    again: toml_edit::DocumentMut,
    second: Seq<char>,
    s: SpecificationView,
)
    requires
        has_open_tables(document_items(document)),
        keeps_layout(document_items(document)),
        ({
            let items = document_items(document);
            forgets_provider(items) ==> provider_name_for(written(added_items(items, s)), s)
                == added_provider(items, s)
        }),
        is_added(first, document, s),
        parsed_document(first) == Some(again),
        is_added(second, again, s),
    ensures
        has_open_tables(document_items(again)),
        parsed_document(second) matches Some(last) && document_items(last) == document_items(again),
{
    let items = document_items(document);
    law_profile_added_once(items, s);
    let once = document_items(again);
    assert(once == written(added_items(items, s)));
    assert(keeps_layout(once)) by {
        if legacy_model(items) is Some {
            lemma_sources_written(items, s);
            lemma_provider_written(items, s);
        } else {
            lemma_no_legacy(items, s);
        }
    }
}

proof fn lemma_provider_written(items: Items, s: SpecificationView)
    requires
        is_whole(items),
        legacy_model(items) is Some,
    ensures
        ({
            let once = written(added_items(items, s));
            takes_header(once, "providers"@, legacy_provider(once))
        }),
{
    lemma_names_differ();
    lemma_other_keys();
    lemma_tops_written(items, s, "openai_base_url"@);
    lemma_tops_written(items, s, "openai_provider_name"@);
    lemma_tables_written(items, s);
    let entry = seq!["providers"@, legacy_provider(items)];
    assert(entry.take(2) =~= entry);
    lemma_added_entry(items, s, entry);
    lemma_written_shape(items, s, entry);
}

proof fn lemma_sources_written(items: Items, s: SpecificationView)
    requires
        is_whole(items),
        has_plain_sources(items),
    ensures
        has_plain_sources(written(added_items(items, s))),
{
    let once = written(added_items(items, s));
    lemma_source_names();
    assert forall|key: Seq<char>| is_other_key(key) && #[trigger] is_plain(items, key) implies
        is_plain(once, key) by {
        lemma_tops_written(items, s, key);
        assert(seq![key][0] == key);
        assert(agree(once, items, seq![key]));
    }
}

proof fn lemma_source_names()
    ensures
        is_other_key("api_key"@),
        is_other_key("api_key_env"@),
        is_other_key("api_key_cmd"@),
        is_other_key("openai_api_key"@),
        is_other_key("openai_api_key_env"@),
        is_other_key("openai_api_key_cmd"@),
        is_other_key("openai_reasoning_effort"@),
{
    reveal_strlit("providers");
    reveal_strlit("model_profiles");
    reveal_strlit("default_profile");
    reveal_strlit("api_key");
    reveal_strlit("api_key_env");
    reveal_strlit("api_key_cmd");
    reveal_strlit("openai_api_key");
    reveal_strlit("openai_api_key_env");
    reveal_strlit("openai_api_key_cmd");
    reveal_strlit("openai_reasoning_effort");
    assert("providers"@[0] == 'p');
    assert("model_profiles"@[0] == 'm');
    assert("default_profile"@[0] == 'd');
    assert("api_key"@[0] == 'a');
    assert("api_key_env"@[0] == 'a');
    assert("api_key_cmd"@[0] == 'a');
    assert("openai_api_key"@[0] == 'o');
    assert("openai_api_key_env"@[0] == 'o');
    assert("openai_api_key_cmd"@[0] == 'o');
    assert("openai_reasoning_effort"@[0] == 'o');
}

/// Adding a profile keeps what a configuration holds: every item at its top keeps its
/// value, be it a string, a number, a boolean or anything else, and every provider and
/// every profile keeps all that it holds, but for the provider of a model without a
/// profile, which is written anew. There is a default profile afterwards.
pub proof fn law_profile_keeps(items: Items, s: SpecificationView, key: Seq<char>, name: Seq<char>)
    requires
        is_whole(items),
    ensures
        ({
            let once = written(added_items(items, s));
            &&& top_item(items, key) is Some ==> top_item(once, key) == top_item(items, key)
            &&& top_item(once, "default_profile"@) is Some
            &&& has_entry(items, "providers"@, name) && (legacy_model(items) is None || name
                != legacy_provider(items)) ==> holds_alike(once, items, "providers"@, name)
            &&& has_entry(items, "model_profiles"@, name) ==> holds_alike(
                once,
                items,
                "model_profiles"@,
                name,
            )
        }),
{
    lemma_names_differ();
    let added = added_items(items, s);
    let once = written(added);
    let c = prepared_items(items);
    lemma_tables_written(items, s);
    lemma_prepared_shape(items);
    lemma_added_shape(c, s);
    lemma_written_shape(items, s, seq![key]);
    if top_item(items, key) is Some {
        lemma_prepared_top(items, key);
        assert(top_item(c, key) == top_item(items, key));
        assert(agree(added, c, seq![key]));
    }
    if has_entry(items, "providers"@, name) && (legacy_model(items) is None || name
        != legacy_provider(items)) {
        lemma_entry_held(items, s, "providers"@, name);
    }
    if has_entry(items, "model_profiles"@, name) {
        assert(legacy_model(items) is None);
        lemma_entry_held(items, s, "model_profiles"@, name);
    }
}

proof fn lemma_entry_held(items: Items, s: SpecificationView, table: Seq<char>, name: Seq<char>)
    requires
        is_whole(items),
        table == "providers"@ || table == "model_profiles"@,
        has_entry(items, table, name),
        !is_legacy(items, seq![table, name]),
    ensures
        holds_alike(written(added_items(items, s)), items, table, name),
{
    lemma_names_differ();
    lemma_prepared_shape(items);
    let once = written(added_items(items, s));
    assert(agree(prepared_items(items), items, seq![table, name]));
    assert(has_entry(prepared_items(items), table, name));
    assert forall|path: Seq<Seq<char>>|
        path.len() >= 2 && path[0] == table && path[1] == name implies (#[trigger]
    once.dom().contains(path) <==> items.dom().contains(path)) && (items.dom().contains(path)
        ==> once[path] == items[path]) by {
        lemma_added_entry(items, s, path);
        lemma_written_shape(items, s, path);
        assert(!is_new(items, s, table, path));
    }
    assert(once.dom().contains(seq![table, name]));
}

/// Whether an entry of a table holds the same in two documents, and is there.
pub open spec fn holds_alike(x: Items, y: Items, table: Seq<char>, name: Seq<char>) -> bool {
    &&& has_entry(x, table, name)
    &&& forall|path: Seq<Seq<char>>|
        path.len() >= 2 && path[0] == table && path[1] == name ==> (#[trigger]
        x.dom().contains(path) <==> y.dom().contains(path)) && (y.dom().contains(path) ==> x[path]
            == y[path])
}

} // verus!
