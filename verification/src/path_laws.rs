//! Which paths lie below which, and which a sandbox lets through.

use vstd::prelude::*;
use crate::paths::{
    components, expanded, is_absolute, is_below, is_name, joined_path, lemma_joined_components,
};
use crate::sandbox::{stays_inside, SandboxView};
use crate::text::occurs;
use crate::text_laws::lemma_between;

verus! {

/// A directory lies below itself, and a name in it lies below it; what lies below something
/// that lies below a directory lies below the directory. Two different names in a directory
/// lie beside each other, even where one begins with the other, and a directory does not lie
/// below what is in it.
pub proof fn law_below(root: Seq<char>, name: Seq<char>, other: Seq<char>, path: Seq<char>)
    requires
        is_absolute(root),
        is_name(name),
        is_name(other),
    ensures
        is_below(root, root),
        is_below(joined_path(root, name), root),
        !is_below(root, joined_path(root, name)),
        name != other ==> !is_below(joined_path(root, name), joined_path(root, other)),
        is_below(path, joined_path(root, name)) ==> is_below(path, root),
{
    lemma_joined_components(root, name);
    lemma_joined_components(root, other);
    let base = components(root);
    let one = components(joined_path(root, name));
    let two = components(joined_path(root, other));
    assert(one.subrange(0, base.len() as int) =~= base);
    assert(base.subrange(0, base.len() as int) =~= base);
    if name != other && two.is_prefix_of(one) {
        assert(one.subrange(0, two.len() as int)[base.len() as int] == name);
    }
    if is_below(path, joined_path(root, name)) {
        let parts = components(path);
        assert(parts.subrange(0, one.len() as int) == one);
        assert forall|i: int| 0 <= i < base.len() implies parts[i] == base[i] by {
            assert(parts.subrange(0, one.len() as int)[i] == parts[i]);
        }
        assert(parts.subrange(0, base.len() as int) =~= base);
    }
}

/// What resolves to a place in one of the roots is let through as the place that it resolves
/// to; anything else is refused, unless there is no restriction, and a path that does not
/// resolve always is. The refusal tells which path was asked for.
pub proof fn law_let_through(
    policy: SandboxView,
    requested: Seq<char>,
    resolved: Option<Seq<char>>,
    roots: Seq<Seq<char>>,
    operation: Seq<char>,
)
    ensures
        ({
            let verdict = policy.verdict(requested, resolved, roots, operation);
            let inside = resolved matches Some(path) && exists|i: int|
                0 <= i < roots.len() && is_below(path, #[trigger] roots[i]);
            &&& verdict is Ok <==> resolved is Some && (policy.unrestricted || inside)
            &&& verdict matches Ok(path) ==> resolved == Some(path)
            &&& verdict matches Err(e) ==> occurs(requested, e)
        }),
{
    match resolved {
        None => {
            let told = "could not resolve path "@ + requested;
            lemma_between("could not resolve path "@, requested, Seq::empty());
            assert(told + Seq::<char>::empty() =~= told);
        },
        Some(path) => {
            let before = "sandbox denied "@ + operation + " access to "@;
            let behind = " (resolved to "@ + path + ")"@;
            lemma_between(before, requested, behind);
            assert(before + requested + behind =~= before + requested + " (resolved to "@ + path
                + ")"@);
        },
    }
}

/// A search pattern stays in its directory only where it neither starts at the root nor has a
/// step up in it, wherever that stands.
pub proof fn law_pattern_stays(pattern: Seq<char>)
    ensures
        stays_inside(pattern) ==> !is_absolute(pattern),
        stays_inside(pattern) <==> !is_absolute(pattern) && forall|i: int|
            0 <= i < components(pattern).len() ==> #[trigger] components(pattern)[i] != ".."@,
{
    if components(pattern).contains(".."@) {
        let i = choose|i: int|
            0 <= i < components(pattern).len() && components(pattern)[i] == ".."@;
        assert(components(pattern)[i] == ".."@);
    }
}

/// A path below the home directory is written with a tilde in front; without a home directory
/// it stays as it is, and so does every other path.
pub proof fn law_home_expanded(path: Seq<char>, home: Seq<char>)
    ensures
        expanded("~/"@ + path, Some(home)) == joined_path(home, path),
        expanded(path, None) == path,
        !"~/"@.is_prefix_of(path) ==> expanded(path, Some(home)) == path,
{
    let whole = "~/"@ + path;
    assert("~/"@.is_prefix_of(whole));
    assert(whole.skip("~/"@.len() as int) =~= path);
}

} // verus!
