//! Which files a turn is followed in, and what is told of its changes.

use vstd::prelude::*;
use crate::checkpoint::{
    byte_fields, change_diff, changes_diff, conflicts, is_unsafe, listed_paths, shown_path,
    size_text, split_state, text_of, with_part, Change, FileState,
};
use crate::text::{byte_len, cut, lemma_encode_concat, occurs};
use crate::text_laws::{law_cut, lemma_between};

verus! {

proof fn lemma_split_concat(a: Seq<u8>, separator: u8, b: Seq<u8>)
    ensures
        split_state(a.push(separator) + b, separator).0 == byte_fields(a, separator) + split_state(
            b,
            separator,
        ).0,
        split_state(a.push(separator) + b, separator).1 == split_state(b, separator).1,
    decreases b.len(),
{
    let all = a.push(separator) + b;
    if b.len() == 0 {
        assert(all =~= a.push(separator));
        assert(all.drop_last() =~= a);
        assert(byte_fields(a, separator) + Seq::<Seq<u8>>::empty() =~= byte_fields(a, separator));
    } else {
        let init = b.drop_last();
        lemma_split_concat(a, separator, init);
        assert(all.drop_last() =~= a.push(separator) + init);
        assert(all.last() == b.last());
        if b.last() == separator {
            let (complete, current) = split_state(init, separator);
            let front = byte_fields(a, separator);
            assert(with_part(front + complete, current) =~= front + with_part(complete, current));
        }
    }
}

proof fn lemma_no_separator(bytes: Seq<u8>, separator: u8)
    requires
        !bytes.contains(separator),
    ensures
        split_state(bytes, separator) == (Seq::<Seq<u8>>::empty(), bytes),
    decreases bytes.len(),
{
    if bytes.len() > 0 {
        let init = bytes.drop_last();
        assert forall|i: int| 0 <= i < init.len() implies init[i] != separator by {
            assert(bytes[i] != separator);
        }
        lemma_no_separator(init, separator);
        assert(bytes[bytes.len() - 1] != separator);
        assert(init.push(bytes.last()) =~= bytes);
    } else {
        assert(bytes =~= Seq::empty());
    }
}

/// The fields of a list are what stands between its separators: those in front of a separator
/// and behind it do not touch each other, a text without a separator is one field, and nothing
/// is no field.
pub proof fn law_fields(a: Seq<u8>, separator: u8, b: Seq<u8>)
    ensures
        byte_fields(a.push(separator) + b, separator) == byte_fields(a, separator) + byte_fields(
            b,
            separator,
        ),
        !a.contains(separator) && a.len() > 0 ==> byte_fields(a, separator) == seq![a],
        byte_fields(Seq::empty(), separator).len() == 0,
{
    lemma_split_concat(a, separator, b);
    let (complete, current) = split_state(b, separator);
    let front = byte_fields(a, separator);
    assert(with_part(front + complete, current) =~= front + with_part(complete, current));
    if !a.contains(separator) {
        lemma_no_separator(a, separator);
        assert(Seq::<Seq<u8>>::empty().push(a) =~= seq![a]);
    }
}

/// A path is refused where it starts at the root or steps up anywhere, in its first part or in
/// what follows; a path of ordinary names is not.
pub proof fn law_unsafe_paths(name: Seq<u8>, rest: Seq<u8>)
    requires
        name.len() > 0,
        !name.contains(0x2f),
    ensures
        is_unsafe(Seq::empty().push(0x2fu8) + rest),
        is_unsafe(name) <==> name == seq![0x2eu8, 0x2e],
        is_unsafe(name.push(0x2f) + rest) <==> name == seq![0x2eu8, 0x2e] || byte_fields(
            rest,
            0x2f,
        ).contains(seq![0x2eu8, 0x2e]),
{
    let up = seq![0x2eu8, 0x2e];
    let rooted = Seq::empty().push(0x2fu8) + rest;
    assert(rooted[0] == 0x2f);
    law_fields(name, 0x2f, rest);
    assert(name[0] != 0x2f) by {
        assert(name.contains(name[0]));
    }
    assert(byte_fields(name, 0x2f)[0] == name);
    assert(byte_fields(name, 0x2f).contains(name));
    let all = byte_fields(name.push(0x2f) + rest, 0x2f);
    let behind = byte_fields(rest, 0x2f);
    assert(all =~= seq![name] + behind);
    assert(all[0] == name);
    assert((name.push(0x2f) + rest)[0] == name[0]);
    if behind.contains(up) {
        let k = choose|k: int| 0 <= k < behind.len() && behind[k] == up;
        assert(all[k + 1] == up);
    }
    if all.contains(up) && name != up {
        let k = choose|k: int| 0 <= k < all.len() && all[k] == up;
        assert(behind[k - 1] == up);
    }
}

/// The files that are followed are exactly those that are listed, each once; there are none
/// where one of them is refused or where they are too many.
pub proof fn law_listed_paths(parts: Seq<Seq<u8>>)
    ensures
        parts.to_set().finite(),
        listed_paths(parts) is Ok <==> parts.to_set().len() <= 10000 && forall|i: int|
            0 <= i < parts.len() ==> !is_unsafe(#[trigger] parts[i]),
        listed_paths(parts) matches Ok(paths) ==> paths == parts.to_set(),
    decreases parts.len(),
{
    if parts.len() == 0 {
        assert(parts.to_set() =~= Set::empty());
    } else {
        let init = parts.drop_last();
        law_listed_paths(init);
        assert(parts.to_set() =~= init.to_set().insert(parts.last())) by {
            assert forall|p: Seq<u8>| parts.to_set().contains(p) <==> init.to_set().insert(
                parts.last(),
            ).contains(p) by {
                if parts.contains(p) {
                    let i = choose|i: int| 0 <= i < parts.len() && parts[i] == p;
                    if i < init.len() {
                        assert(init[i] == p);
                    }
                }
                if init.contains(p) {
                    let i = choose|i: int| 0 <= i < init.len() && init[i] == p;
                    assert(parts[i] == p);
                }
                assert(parts[parts.len() - 1] == parts.last());
            }
        }
        assert(init.to_set().len() <= parts.to_set().len());
        assert(parts[parts.len() - 1] == parts.last());
        assert forall|i: int| 0 <= i < init.len() implies #[trigger] init[i] == parts[i] by {}
        if forall|i: int| 0 <= i < parts.len() ==> !is_unsafe(#[trigger] parts[i]) {
            assert forall|i: int| 0 <= i < init.len() implies !is_unsafe(#[trigger] init[i]) by {
                assert(!is_unsafe(parts[i]));
            }
        }
        if listed_paths(parts) is Ok {
            assert forall|i: int| 0 <= i < parts.len() implies !is_unsafe(#[trigger] parts[i]) by {
                if i < init.len() {
                    assert(!is_unsafe(init[i]));
                }
            }
        }
    }
}

/// The changes of paths, one behind the other.
pub open spec fn all_diffs(paths: Seq<Seq<u8>>, changes: Seq<Change>) -> Seq<char>
    decreases paths.len(),
{
    if paths.len() == 0 || changes.len() == 0 {
        Seq::empty()
    } else {
        change_diff(paths[0], changes[0]) + all_diffs(paths.drop_first(), changes.drop_first())
    }
}

/// What is shown of the changes of a turn is all of them, in order, where they fit; otherwise it
/// is their beginning, up to the limit, and a note that there is more.
pub proof fn law_changes_shown(start: Seq<char>, paths: Seq<Seq<u8>>, changes: Seq<Change>)
    requires
        byte_len(start) <= 262144,
    ensures
        ({
            let all = start + all_diffs(paths, changes);
            let told = changes_diff(start, paths, changes);
            let note = "\n[diff truncated]\n"@;
            &&& byte_len(all) <= 262144 ==> told == all
            &&& byte_len(all) > 262144 ==> {
                &&& note.is_suffix_of(told)
                &&& told.take(told.len() - note.len()).is_prefix_of(all)
                &&& byte_len(told.take(told.len() - note.len())) <= 262144
            }
        }),
    decreases paths.len(),
{
    let all = start + all_diffs(paths, changes);
    let note = "\n[diff truncated]\n"@;
    if paths.len() == 0 || changes.len() == 0 {
        assert(all =~= start);
    } else {
        let text = start + change_diff(paths[0], changes[0]);
        let rest = all_diffs(paths.drop_first(), changes.drop_first());
        assert(all =~= text + rest);
        lemma_encode_concat(text, rest);
        if byte_len(text) > 262144 {
            let kept = cut(text, 262144);
            let told = kept + note;
            law_cut(text, 262144);
            assert(told.subrange(told.len() - note.len(), told.len() as int) =~= note);
            assert(told.take(told.len() - note.len()) =~= kept);
            assert(all.subrange(0, kept.len() as int) =~= text.subrange(0, kept.len() as int));
        } else {
            law_changes_shown(text, paths.drop_first(), changes.drop_first());
        }
    }
}

/// A change of a file that is no text is told with its path and what stood there before and
/// after.
pub proof fn law_binary_change_told(path: Seq<u8>, change: Change)
    requires
        text_of(change.before@) is None || text_of(change.after@) is None,
    ensures
        occurs(shown_path(path), change_diff(path, change)),
        occurs(
            size_text(change.before@) + " -> "@ + size_text(change.after@),
            change_diff(path, change),
        ),
{
    let a = "Binary or non-UTF-8 file changed: "@;
    let was = size_text(change.before@);
    let is_now = size_text(change.after@);
    let told = change_diff(path, change);
    let behind = " ("@ + was + " -> "@ + is_now + ")\n"@;
    assert(told =~= a + shown_path(path) + behind);
    lemma_between(a, shown_path(path), behind);
    let front = a + shown_path(path) + " ("@;
    assert(told =~= front + (was + " -> "@ + is_now) + ")\n"@);
    lemma_between(front, was + " -> "@ + is_now, ")\n"@);
}

/// Only files that were changed since stand in the way of undoing a turn.
pub proof fn law_only_later_edits_block(
    paths: Seq<Seq<u8>>,
    changes: Seq<Change>,
    current: Seq<FileState>,
    k: int,
)
    requires
        paths.len() == changes.len(),
        paths.len() == current.len(),
        0 <= k < conflicts(paths, changes, current).len(),
    ensures
        conflicts(paths, changes, current).len() <= paths.len(),
        exists|i: int|
            {
                &&& 0 <= i < paths.len()
                &&& (#[trigger] current[i])@ != changes[i].after@
                &&& conflicts(paths, changes, current)[k] == shown_path(paths[i])
            },
    decreases paths.len(),
{
    if paths.len() > 0 {
        let (p, c, s) = (paths.drop_last(), changes.drop_last(), current.drop_last());
        let before = conflicts(p, c, s);
        assert(current[current.len() - 1] == current.last());
        assert(changes[changes.len() - 1] == changes.last());
        assert(paths[paths.len() - 1] == paths.last());
        if before.len() > 0 {
            law_only_later_edits_block(p, c, s, 0);
        }
        if k < before.len() {
            law_only_later_edits_block(p, c, s, k);
            let i = choose|i: int|
                {
                    &&& 0 <= i < p.len()
                    &&& (#[trigger] s[i])@ != c[i].after@
                    &&& before[k] == shown_path(p[i])
                };
            assert(current[i] == s[i]);
            assert(changes[i] == c[i]);
            assert(paths[i] == p[i]);
        }
    }
}

} // verus!
