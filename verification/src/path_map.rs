//! Values by relative path, in the order of paths.

use vstd::prelude::*;

verus! {

/// The place of a byte in the order of paths: a slash ends a component, so it comes
/// before every other byte.
pub open spec fn byte_rank(b: u8) -> int {
    if b == 0x2f {
        0
    } else {
        b + 1
    }
}

/// Whether one path comes before another, component by component.
pub open spec fn path_before(a: Seq<u8>, b: Seq<u8>) -> bool
    decreases a.len(),
{
    if b.len() == 0 {
        false
    } else if a.len() == 0 {
        true
    } else if a[0] == b[0] {
        path_before(a.drop_first(), b.drop_first())
    } else {
        byte_rank(a[0]) < byte_rank(b[0])
    }
}

/// Whether paths stand in order, each of them once.
pub open spec fn in_path_order(paths: Seq<Seq<u8>>) -> bool {
    forall|i: int, j: int|
        0 <= i < j < paths.len() ==> path_before(#[trigger] paths[i], #[trigger] paths[j])
}

proof fn lemma_before_or_equal(a: Seq<u8>, b: Seq<u8>)
    ensures
        path_before(a, b) || path_before(b, a) || a == b,
        !(path_before(a, b) && path_before(b, a)),
        a == b ==> !path_before(a, b),
    decreases a.len(),
{
    if a.len() > 0 && b.len() > 0 && a[0] == b[0] {
        lemma_before_or_equal(a.drop_first(), b.drop_first());
        if a.drop_first() == b.drop_first() {
            assert(a =~= seq![a[0]] + a.drop_first());
            assert(b =~= seq![b[0]] + b.drop_first());
        }
    } else if a.len() == 0 && b.len() == 0 {
        assert(a =~= b);
    }
}

proof fn lemma_before_transitive(a: Seq<u8>, b: Seq<u8>, c: Seq<u8>)
    requires
        path_before(a, b),
        path_before(b, c),
    ensures
        path_before(a, c),
    decreases a.len(),
{
    if a.len() > 0 && b.len() > 0 && c.len() > 0 && a[0] == b[0] && b[0] == c[0] {
        lemma_before_transitive(a.drop_first(), b.drop_first(), c.drop_first());
    }
}

/// How two paths stand to each other.
#[derive(Debug, Clone, Copy, PartialEq, Eq, Structural)]
enum Relation {
    Before,
    Same,
    Behind,
}

fn rank_of(b: u8) -> (r: u16)
    ensures
        r == byte_rank(b),
{
    if b == 0x2f {
        0
    } else {
        b as u16 + 1
    }
}

fn relate(a: &Vec<u8>, b: &[u8]) -> (r: Relation)
    ensures
        r == Relation::Before <==> path_before(a@, b@),
        r == Relation::Behind <==> path_before(b@, a@),
        r == Relation::Same <==> a@ == b@,
{
    let mut i: usize = 0;
    assert(a@.skip(0) =~= a@);
    assert(b@.skip(0) =~= b@);
    while i < a.len() && i < b.len()
        invariant
            i <= a@.len(),
            i <= b@.len(),
            a@.take(i as int) == b@.take(i as int),
            path_before(a@.skip(i as int), b@.skip(i as int)) == path_before(a@, b@),
            path_before(b@.skip(i as int), a@.skip(i as int)) == path_before(b@, a@),
        decreases a.len() - i,
    {
        assert(a@.skip(i as int).drop_first() =~= a@.skip(i + 1));
        assert(b@.skip(i as int).drop_first() =~= b@.skip(i + 1));
        if a[i] != b[i] {
            assert(a@[i as int] != b@[i as int]);
            assert(a@ != b@);
            return if rank_of(a[i]) < rank_of(b[i]) {
                Relation::Before
            } else {
                Relation::Behind
            };
        }
        assert(a@.take(i + 1) =~= a@.take(i as int).push(a@[i as int]));
        assert(b@.take(i + 1) =~= b@.take(i as int).push(b@[i as int]));
        i = i + 1;
    }
    if i < a.len() {
        assert(a@.len() != b@.len());
        Relation::Behind
    } else if i < b.len() {
        assert(a@.len() != b@.len());
        Relation::Before
    } else {
        assert(a@.take(i as int) =~= a@);
        assert(b@.take(i as int) =~= b@);
        proof {
            lemma_before_or_equal(a@, b@);
        }
        Relation::Same
    }
}

/// Values by path. No path stands for two values; the paths stand in order.
pub struct PathMap<T> {
    entries: Vec<(Vec<u8>, T)>,
}

/// The paths of entries.
pub open spec fn entry_paths<T>(entries: Seq<(Vec<u8>, T)>) -> Seq<Seq<u8>> {
    entries.map_values(|e: (Vec<u8>, T)| e.0@)
}

/// The values of entries.
pub open spec fn entry_states<T>(entries: Seq<(Vec<u8>, T)>) -> Seq<T> {
    entries.map_values(|e: (Vec<u8>, T)| e.1)
}

/// The value of a path among others, where it has one.
pub open spec fn value_among<T>(paths: Seq<Seq<u8>>, values: Seq<T>, path: Seq<u8>) -> Option<T> {
    if paths.contains(path) {
        Some(values[paths.index_of(path)])
    } else {
        None
    }
}

impl<T> PathMap<T> {
    /// The paths, in order.
    pub closed spec fn paths(&self) -> Seq<Seq<u8>> {
        entry_paths(self.entries@)
    }

    /// The values, in the order of their paths.
    pub closed spec fn values(&self) -> Seq<T> {
        entry_states(self.entries@)
    }

    /// The value of a path, where it has one.
    pub open spec fn value_of(&self, path: Seq<u8>) -> Option<T> {
        value_among(self.paths(), self.values(), path)
    }

    #[verifier::type_invariant]
    spec fn ordered(&self) -> bool {
        in_path_order(entry_paths(self.entries@))
    }

    /// No values.
    pub fn new() -> (r: PathMap<T>)
        ensures
            r.paths() == Seq::<Seq<u8>>::empty(),
            r.values() == Seq::<T>::empty(),
    {
        let entries: Vec<(Vec<u8>, T)> = Vec::new();
        assert(entry_paths(entries@) =~= Seq::empty());
        assert(entry_states(entries@) =~= Seq::empty());
        PathMap { entries }
    }

    /// How many values there are.
    pub fn len(&self) -> (r: usize)
        ensures
            r == self.paths().len(),
            r == self.values().len(),
            in_path_order(self.paths()),
    {
        proof {
            use_type_invariant(self);
        }
        self.entries.len()
    }

    /// A path by its place.
    pub fn path_at(&self, i: usize) -> (r: &Vec<u8>)
        requires
            i < self.paths().len(),
        ensures
            r@ == self.paths()[i as int],
    {
        &self.entries[i].0
    }

    /// A value by its place.
    pub fn value_at(&self, i: usize) -> (r: &T)
        requires
            i < self.values().len(),
        ensures
            *r == self.values()[i as int],
    {
        &self.entries[i].1
    }

    /// The value of a path.
    pub fn get(&self, path: &[u8]) -> (r: Option<&T>)
        ensures
            self.value_of(path@) == (match r {
                Some(v) => Some(*v),
                None => None,
            }),
    {
        proof {
            use_type_invariant(self);
        }
        let ghost paths = self.paths();
        let mut i: usize = 0;
        while i < self.entries.len()
            invariant
                i <= self.entries@.len(),
                paths == self.paths(),
                in_path_order(paths),
                forall|k: int| 0 <= k < i ==> #[trigger] paths[k] != path@,
            decreases self.entries.len() - i,
        {
            match relate(&self.entries[i].0, path) {
                Relation::Same => {
                    proof {
                        assert(paths[i as int] == path@);
                        let j = paths.index_of(path@);
                        assert(paths[j] == path@);
                        lemma_before_or_equal(path@, path@);
                        if j < i {
                            assert(path_before(paths[j], paths[i as int]));
                        } else if i < j {
                            assert(path_before(paths[i as int], paths[j]));
                        }
                    }
                    return Some(&self.entries[i].1);
                },
                _ => {
                    assert(paths[i as int] != path@);
                },
            }
            i = i + 1;
        }
        None
    }

    fn place(&self, path: &[u8]) -> (r: (usize, bool))
        ensures
            r.0 <= self.paths().len(),
            r.1 ==> r.0 < self.paths().len() && self.paths()[r.0 as int] == path@,
            !r.1 ==> (r.0 < self.paths().len() ==> path_before(path@, self.paths()[r.0 as int])),
            forall|k: int| 0 <= k < r.0 ==> path_before(#[trigger] self.paths()[k], path@),
    {
        let mut at: usize = 0;
        while at < self.entries.len()
            invariant
                at <= self.entries@.len(),
                forall|k: int| 0 <= k < at ==> path_before(#[trigger] self.paths()[k], path@),
            decreases self.entries.len() - at,
        {
            match relate(&self.entries[at].0, path) {
                Relation::Before => {},
                Relation::Same => return (at, true),
                Relation::Behind => return (at, false),
            }
            at = at + 1;
        }
        (at, false)
    }

    /// The map in which a path has a value, in place of the one it had.
    pub fn with(self, path: Vec<u8>, value: T) -> (r: PathMap<T>)
        ensures
            forall|p: Seq<u8>|
                #![trigger r.value_of(p)]
                #![trigger self.value_of(p)]
                r.value_of(p) == (if p == path@ {
                    Some(value)
                } else {
                    self.value_of(p)
                }),
            in_path_order(r.paths()),
    {
        proof {
            use_type_invariant(&self);
        }
        let ghost paths = self.paths();
        let ghost values = self.values();
        let ghost key = path@;
        let (at, found) = self.place(path.as_slice());
        let mut entries = self.entries;
        if found {
            entries.set(at, (path, value));
            proof {
                assert(entry_paths(entries@) =~= paths);
                assert(entry_states(entries@) =~= values.update(at as int, value));
                assert forall|p: Seq<u8>|
                    #[trigger] value_among(paths, values.update(at as int, value), p) == (if p
                        == key {
                        Some(value)
                    } else {
                        value_among(paths, values, p)
                    }) by {
                    lemma_place_unique(paths, at as int);
                    if paths.contains(p) && p != key {
                        assert(paths[paths.index_of(p)] == p);
                    }
                }
            }
        } else {
            entries.insert(at, (path, value));
            proof {
                lemma_insert(paths, at as int, key);
                assert(entry_paths(entries@) =~= paths.insert(at as int, key));
                assert(entry_states(entries@) =~= values.insert(at as int, value));
                assert forall|p: Seq<u8>|
                    #[trigger] value_among(
                        paths.insert(at as int, key),
                        values.insert(at as int, value),
                        p,
                    ) == (if p == key {
                        Some(value)
                    } else {
                        value_among(paths, values, p)
                    }) by {
                    lemma_inserted_value(paths, values, at as int, key, value, p);
                }
            }
        }
        let r = PathMap { entries };
        assert forall|p: Seq<u8>|
            #[trigger] r.value_of(p) == (if p == key {
                Some(value)
            } else {
                self.value_of(p)
            }) by {
            assert(r.value_of(p) == value_among(r.paths(), r.values(), p));
            assert(self.value_of(p) == value_among(paths, values, p));
        }
        r
    }
}

proof fn lemma_insert(paths: Seq<Seq<u8>>, at: int, key: Seq<u8>)
    requires
        in_path_order(paths),
        0 <= at <= paths.len(),
        forall|k: int| 0 <= k < at ==> path_before(#[trigger] paths[k], key),
        at < paths.len() ==> path_before(key, paths[at]),
    ensures
        in_path_order(paths.insert(at, key)),
{
    let t = paths.insert(at, key);
    assert forall|i: int, j: int| 0 <= i < j < t.len() implies path_before(
        #[trigger] t[i],
        #[trigger] t[j],
    ) by {
        if j < at {
            assert(path_before(paths[i], paths[j]));
        } else if j == at {
            assert(path_before(paths[i], key));
        } else if i == at {
            if j - 1 > at {
                assert(path_before(paths[at], paths[j - 1]));
                lemma_before_transitive(key, paths[at], paths[j - 1]);
            }
        } else if i > at {
            assert(path_before(paths[i - 1], paths[j - 1]));
        } else {
            assert(path_before(paths[i], key));
            if j - 1 == at {
                lemma_before_transitive(paths[i], key, paths[at]);
            } else {
                assert(path_before(paths[i], paths[j - 1]));
            }
        }
    }
}

proof fn lemma_place_unique(paths: Seq<Seq<u8>>, at: int)
    requires
        in_path_order(paths),
        0 <= at < paths.len(),
    ensures
        paths.contains(paths[at]),
        paths.index_of(paths[at]) == at,
{
    let path = paths[at];
    assert(paths.contains(path));
    let j = paths.index_of(path);
    assert(0 <= j < paths.len() && paths[j] == path);
    lemma_before_or_equal(path, path);
    if j < at {
        assert(path_before(paths[j], paths[at]));
    } else if at < j {
        assert(path_before(paths[at], paths[j]));
    }
}

proof fn lemma_inserted_value<T>(
    paths: Seq<Seq<u8>>,
    values: Seq<T>,
    at: int,
    key: Seq<u8>,
    value: T,
    p: Seq<u8>,
)
    requires
        0 <= at <= paths.len(),
        paths.len() == values.len(),
        in_path_order(paths),
        in_path_order(paths.insert(at, key)),
    ensures
        value_among(paths.insert(at, key), values.insert(at, value), p) == (if p == key {
            Some(value)
        } else {
            value_among(paths, values, p)
        }),
{
    let q = paths.insert(at, key);
    let v = values.insert(at, value);
    assert(q[at] == key);
    lemma_place_unique(q, at);
    if p != key {
        if q.contains(p) {
            let j = q.index_of(p);
            assert(0 <= j < q.len() && q[j] == p);
            let i = if j < at {
                j
            } else {
                j - 1
            };
            assert(paths[i] == p);
            lemma_place_unique(paths, i);
            assert(v[j] == values[i]);
        }
        if paths.contains(p) {
            let i = paths.index_of(p);
            assert(0 <= i < paths.len() && paths[i] == p);
            let j = if i < at {
                i
            } else {
                i + 1
            };
            assert(q[j] == p);
        }
    }
}

/// Each path of a map has the value in its place.
pub proof fn lemma_value_in_place<T>(paths: Seq<Seq<u8>>, values: Seq<T>, i: int)
    requires
        in_path_order(paths),
        paths.len() == values.len(),
        0 <= i < paths.len(),
    ensures
        value_among(paths, values, paths[i]) == Some(values[i]),
{
    lemma_place_unique(paths, i);
}

/// A map has as many values as paths.
pub proof fn lemma_same_count<T>(map: PathMap<T>)
    ensures
        map.paths().len() == map.values().len(),
{
}

} // verus!
