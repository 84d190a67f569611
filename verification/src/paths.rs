//! File paths by their text. A path is taken apart at its slashes; what the file system
//! makes of it is not asked here.

use vstd::prelude::*;
use vstd::string::StringExecFns;
use crate::text;
use crate::text::{joined, split_parts, texts};

verus! {

/// Whether a path starts at the root.
pub open spec fn is_absolute(path: Seq<char>) -> bool {
    path.len() > 0 && path[0] == '/'
}

/// The parts of a path that count among the first `n`: empty parts do not, and a dot
/// only at the beginning of a relative path.
pub open spec fn counted_parts(parts: Seq<Seq<char>>, absolute: bool, n: int) -> Seq<Seq<char>>
    decreases n,
{
    if n <= 0 {
        Seq::empty()
    } else {
        let before = counted_parts(parts, absolute, n - 1);
        let part = parts[n - 1];
        if part.len() == 0 || (part == "."@ && (absolute || n > 1)) {
            before
        } else {
            before.push(part)
        }
    }
}

/// The components of a path below its root.
pub open spec fn components(path: Seq<char>) -> Seq<Seq<char>> {
    let parts = split_parts(path, "/"@);
    counted_parts(parts, is_absolute(path), parts.len() as int)
}

/// Whether `path` lies at or below `root`, component by component.
pub open spec fn is_below(path: Seq<char>, root: Seq<char>) -> bool {
    is_absolute(path) == is_absolute(root) && components(root).is_prefix_of(components(path))
}

/// Whether a path starts at the root.
pub fn absolute(path: &str) -> (r: bool)
    ensures
        r == is_absolute(path@),
{
    proof {
        reveal_strlit("/");
        assert("/"@ =~= seq!['/']);
    }
    let r = text::starts_with(path, "/");
    assert(r == is_absolute(path@)) by {
        if path@.len() > 0 {
            assert(path@.subrange(0, 1) =~= seq![path@[0]]);
            assert(seq![path@[0]][0] == path@[0]);
        }
    }
    r
}

/// The components of a path below its root.
pub fn split_path(path: &str) -> (r: Vec<String>)
    ensures
        texts(r@) == components(path@),
{
    proof {
        reveal_strlit("/");
    }
    assert("/"@.len() > 0);
    let from_root = absolute(path);
    let parts = text::split(path, "/");
    let ghost all = texts(parts@);
    let mut out: Vec<String> = Vec::new();
    assert(texts(out@) =~= Seq::empty());
    let mut i: usize = 0;
    while i < parts.len()
        invariant
            i <= parts@.len(),
            all == texts(parts@),
            from_root == is_absolute(path@),
            texts(out@) == counted_parts(all, is_absolute(path@), i as int),
        decreases parts.len() - i,
    {
        assert(all[i as int] == parts@[i as int]@);
        let skipped = parts[i].as_str().is_empty() || (text::same(parts[i].as_str(), ".") && (
        from_root || i > 0));
        if !skipped {
            let ghost before = texts(out@);
            out.push(parts[i].clone());
            assert(texts(out@) =~= before.push(parts@[i as int]@));
        }
        i = i + 1;
    }
    out
}

/// Whether `path` lies at or below `root`, component by component.
pub fn below(path: &str, root: &str) -> (r: bool)
    ensures
        r == is_below(path@, root@),
{
    if absolute(path) != absolute(root) {
        return false;
    }
    let a = split_path(path);
    let b = split_path(root);
    if b.len() > a.len() {
        return false;
    }
    let ghost x = texts(a@);
    let ghost y = texts(b@);
    let mut i: usize = 0;
    while i < b.len()
        invariant
            i <= b@.len(),
            b@.len() <= a@.len(),
            x == texts(a@),
            y == texts(b@),
            x == components(path@),
            y == components(root@),
            forall|k: int| 0 <= k < i ==> x[k] == y[k],
        decreases b.len() - i,
    {
        if !text::same(a[i].as_str(), b[i].as_str()) {
            assert(x.subrange(0, y.len() as int)[i as int] != y[i as int]);
            return false;
        }
        i = i + 1;
    }
    assert(x.subrange(0, y.len() as int) =~= y);
    true
}

/// A path below a directory. An absolute path stands for itself.
pub open spec fn joined_path(base: Seq<char>, path: Seq<char>) -> Seq<char> {
    if is_absolute(path) {
        path
    } else if base.len() == 0 || base.last() == '/' {
        base + path
    } else {
        base + "/"@ + path
    }
}

/// A path below a directory. An absolute path stands for itself.
pub fn join(base: &str, path: &str) -> (r: String)
    ensures
        r@ == joined_path(base@, path@),
{
    if absolute(path) {
        return path.to_owned();
    }
    let mut out = base.to_owned();
    proof {
        reveal_strlit("/");
        assert("/"@ =~= seq!['/']);
    }
    let ends = text::ends_with(base, "/");
    assert(base@.len() > 0 ==> (ends == (base@.last() == '/'))) by {
        if base@.len() > 0 {
            assert(base@.subrange(base@.len() - 1, base@.len() as int) =~= seq![base@.last()]);
            assert(seq![base@.last()][0] == base@.last());
        }
    }
    if !base.is_empty() && !ends {
        out.append("/");
    }
    out.append(path);
    out
}

/// A path with a leading `~/` replaced by the home directory, where there is one.
pub open spec fn expanded(path: Seq<char>, home: Option<Seq<char>>) -> Seq<char> {
    if "~/"@.is_prefix_of(path) {
        match home {
            Some(h) => joined_path(h, path.skip("~/"@.len() as int)),
            None => path,
        }
    } else {
        path
    }
}

/// A path with a leading `~/` replaced by the home directory, where there is one.
pub fn expand_tilde(path: &str, home: Option<&str>) -> (r: String)
    ensures
        r@ == expanded(path@, crate::api::error::str_option(home)),
{
    match text::strip_prefix(path, "~/") {
        Some(rest) => match home {
            Some(h) => join(h, rest),
            None => path.to_owned(),
        },
        None => path.to_owned(),
    }
}

/// The text of a path made of components.
pub open spec fn path_text(from_root: bool, parts: Seq<Seq<char>>) -> Seq<char> {
    if from_root {
        "/"@ + joined(parts, "/"@)
    } else {
        joined(parts, "/"@)
    }
}

/// The text of a path made of components.
pub fn render_path(from_root: bool, parts: &[String]) -> (r: String)
    ensures
        r@ == path_text(from_root, texts(parts@)),
{
    let below_root = text::join(parts, "/");
    if from_root {
        let mut out = "/".to_owned();
        out.append(below_root.as_str());
        out
    } else {
        below_root
    }
}

/// Whether a text is one component of a path, and no step to the directory itself or up.
pub open spec fn is_name(part: Seq<char>) -> bool {
    part.len() > 0 && !part.contains('/') && part != "."@ && part != ".."@
}

proof fn lemma_counted_first(
    parts: Seq<Seq<char>>,
    others: Seq<Seq<char>>,
    absolute: bool,
    n: int,
)
    requires
        0 <= n <= parts.len(),
        n <= others.len(),
        forall|i: int| 0 <= i < n ==> parts[i] == others[i],
    ensures
        counted_parts(parts, absolute, n) == counted_parts(others, absolute, n),
    decreases n,
{
    if n > 0 {
        lemma_counted_first(parts, others, absolute, n - 1);
    }
}

proof fn lemma_counted_from(parts: Seq<Seq<char>>, absolute: bool, n: int, k: int)
    requires
        0 <= n <= parts.len(),
        0 <= k < counted_parts(parts, absolute, n).len(),
    ensures
        ({
            let part = counted_parts(parts, absolute, n)[k];
            part.len() > 0 && exists|i: int| 0 <= i < n && #[trigger] parts[i] == part
        }),
    decreases n,
{
    let before = counted_parts(parts, absolute, n - 1);
    if k < before.len() {
        lemma_counted_from(parts, absolute, n - 1, k);
    } else {
        assert(counted_parts(parts, absolute, n)[k] == parts[n - 1]);
    }
}

/// A component is not empty and holds no slash.
pub proof fn lemma_component(path: Seq<char>, k: int)
    requires
        0 <= k < components(path).len(),
    ensures
        components(path)[k].len() > 0,
        !components(path)[k].contains('/'),
{
    reveal_strlit("/");
    assert("/"@ =~= seq!['/']);
    let parts = split_parts(path, "/"@);
    lemma_counted_from(parts, is_absolute(path), parts.len() as int, k);
    let i = choose|i: int| 0 <= i < parts.len() && #[trigger] parts[i] == components(path)[k];
    text::lemma_parts_without(path, '/', i);
}

/// A name below a directory is one more component.
pub proof fn lemma_joined_components(base: Seq<char>, part: Seq<char>)
    requires
        is_absolute(base),
        is_name(part),
    ensures
        is_absolute(joined_path(base, part)),
        components(joined_path(base, part)) == components(base).push(part),
{
    reveal_strlit("/");
    assert("/"@ =~= seq!['/']);
    assert(!is_absolute(part)) by {
        if is_absolute(part) {
            assert(part.contains(part[0]));
        }
    }
    let below = joined_path(base, part);
    assert(below[0] == base[0]);
    let before = if base.last() == '/' {
        base.drop_last()
    } else {
        base
    };
    assert(below =~= before + seq!['/'] + part);
    text::lemma_split_join(before, '/', part);
    let parts = split_parts(before, "/"@);
    let all = split_parts(below, "/"@);
    assert(all == parts.push(part));
    lemma_counted_first(parts, all, true, parts.len() as int);
    if base.last() == '/' {
        assert(base =~= before + seq!['/'] + Seq::<char>::empty());
        text::lemma_split_join(before, '/', Seq::empty());
        let own = split_parts(base, "/"@);
        assert(own == parts.push(Seq::empty()));
        lemma_counted_first(parts, own, true, parts.len() as int);
    }
}

} // verus!
