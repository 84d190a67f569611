//! Tables of named values.

use vstd::prelude::*;
use crate::text;
use crate::text::texts;

verus! {

/// Values by name. No name stands for two values; names keep the order in which they came.
pub struct Table<T> {
    entries: Vec<(String, T)>,
}

/// The names of entries.
pub open spec fn entry_names<T>(entries: Seq<(String, T)>) -> Seq<Seq<char>> {
    entries.map_values(|e: (String, T)| e.0@)
}

/// The values of entries.
pub open spec fn entry_values<T>(entries: Seq<(String, T)>) -> Seq<T> {
    entries.map_values(|e: (String, T)| e.1)
}

/// The value of each name.
pub open spec fn value_map<T>(names: Seq<Seq<char>>, values: Seq<T>) -> Map<Seq<char>, T>
    decreases names.len(),
{
    if names.len() == 0 {
        Map::empty()
    } else {
        value_map(names.drop_last(), values.drop_last()).insert(names.last(), values.last())
    }
}

impl<T> View for Table<T> {
    type V = Map<Seq<char>, T>;

    open spec fn view(&self) -> Map<Seq<char>, T> {
        value_map(self.names(), self.values())
    }
}

proof fn lemma_value_map<T>(names: Seq<Seq<char>>, values: Seq<T>)
    requires
        names.len() == values.len(),
        names.no_duplicates(),
    ensures
        forall|k: Seq<char>| #[trigger]
            value_map(names, values).contains_key(k) <==> names.contains(k),
        forall|i: int|
            0 <= i < names.len() ==> value_map(names, values)[#[trigger] names[i]] == values[i],
    decreases names.len(),
{
    if names.len() > 0 {
        let before = names.drop_last();
        lemma_value_map(before, values.drop_last());
        let m = value_map(names, values);
        assert forall|k: Seq<char>| #[trigger] m.contains_key(k) <==> names.contains(k) by {
            assert(value_map(before, values.drop_last()).contains_key(k) <==> before.contains(k));
            if before.contains(k) {
                let i = choose|i: int| 0 <= i < before.len() && before[i] == k;
                assert(names[i] == k);
            }
            if names.contains(k) {
                let i = choose|i: int| 0 <= i < names.len() && names[i] == k;
                if i < before.len() {
                    assert(before[i] == k);
                }
            }
            assert(names[names.len() - 1] == names.last());
        }
        assert forall|i: int| 0 <= i < names.len() implies m[#[trigger] names[i]] == values[i] by {
            if i < before.len() {
                assert(before[i] == names[i]);
            }
        }
    }
}

/// The value of a name, where it has one.
pub open spec fn lookup<T>(table: Table<T>, name: Seq<char>) -> Option<T> {
    if table@.contains_key(name) {
        Some(table@[name])
    } else {
        None
    }
}

impl<T> Table<T> {
    /// The names, in the order in which they came.
    pub closed spec fn names(&self) -> Seq<Seq<char>> {
        entry_names(self.entries@)
    }

    /// The values, in the order of the names.
    pub closed spec fn values(&self) -> Seq<T> {
        entry_values(self.entries@)
    }

    #[verifier::type_invariant]
    spec fn distinct(&self) -> bool {
        entry_names(self.entries@).no_duplicates()
    }

    /// A table of nothing.
    pub fn new() -> (r: Table<T>)
        ensures
            r.names() == Seq::<Seq<char>>::empty(),
            r.values() == Seq::<T>::empty(),
            r@ == Map::<Seq<char>, T>::empty(),
    {
        let r = Table { entries: Vec::new() };
        assert(r.names() =~= Seq::<Seq<char>>::empty());
        assert(r.values() =~= Seq::<T>::empty());
        r
    }

    /// How many values there are.
    pub fn len(&self) -> (r: usize)
        ensures
            r == self.names().len(),
            r == self.values().len(),
            self.names().no_duplicates(),
    {
        proof {
            use_type_invariant(self);
        }
        self.entries.len()
    }

    /// Whether there are no values.
    pub fn is_empty(&self) -> (r: bool)
        ensures
            r == (self.names().len() == 0),
            r == (self.values().len() == 0),
            r == (self@ == Map::<Seq<char>, T>::empty()),
    {
        proof {
            use_type_invariant(self);
            lemma_value_map(self.names(), self.values());
            if self.names().len() > 0 {
                let name = self.names()[0];
                assert(self.names().contains(name));
                assert(self@.contains_key(name));
            }
        }
        self.entries.len() == 0
    }

    /// A name by its place.
    pub fn name_at(&self, i: usize) -> (r: &String)
        requires
            i < self.names().len(),
        ensures
            r@ == self.names()[i as int],
    {
        &self.entries[i].0
    }

    /// A value by its place.
    pub fn value_at(&self, i: usize) -> (r: &T)
        requires
            i < self.values().len(),
        ensures
            *r == self.values()[i as int],
    {
        &self.entries[i].1
    }

    fn position(&self, name: &str) -> (r: Option<usize>)
        ensures
            r matches Some(i) ==> i < self.names().len() && self.names()[i as int] == name@,
            r is None ==> !self.names().contains(name@),
    {
        let mut i: usize = 0;
        while i < self.entries.len()
            invariant
                i <= self.entries@.len(),
                forall|k: int| 0 <= k < i ==> #[trigger] self.names()[k] != name@,
            decreases self.entries.len() - i,
        {
            if text::same(self.entries[i].0.as_str(), name) {
                return Some(i);
            }
            i = i + 1;
        }
        None
    }

    /// The value of a name.
    pub fn get(&self, name: &str) -> (r: Option<&T>)
        ensures
            r is Some <==> self@.contains_key(name@),
            r matches Some(v) ==> *v == self@[name@],
    {
        proof {
            use_type_invariant(self);
            lemma_value_map(self.names(), self.values());
        }
        match self.position(name) {
            Some(i) => {
                assert(self.names()[i as int] == name@);
                Some(&self.entries[i].1)
            },
            None => None,
        }
    }

    /// Whether a name has a value.
    pub fn contains_key(&self, name: &str) -> (r: bool)
        ensures
            r == self@.contains_key(name@),
    {
        self.get(name).is_some()
    }

    /// The table in which a name has a value, in place of the one it had.
    pub fn with(self, name: String, value: T) -> (r: Table<T>)
        ensures
            r@ == self@.insert(name@, value),
            self@.contains_key(name@) ==> r.names() == self.names(),
            !self@.contains_key(name@) ==> r.names() == self.names().push(name@) && r.values()
                == self.values().push(value),
    {
        proof {
            use_type_invariant(&self);
            lemma_value_map(self.names(), self.values());
        }
        let ghost names = self.names();
        let ghost values = self.values();
        let ghost map = self@;
        let place = self.position(name.as_str());
        let ghost key = name@;
        let mut entries = self.entries;
        match place {
            Some(i) => {
                entries.set(i, (name, value));
                proof {
                    let updated = values.update(i as int, value);
                    assert(entry_names(entries@) =~= names);
                    assert(entry_values(entries@) =~= updated);
                    lemma_value_map(names, updated);
                    assert(map.contains_key(names[i as int]));
                    assert forall|k: Seq<char>| #[trigger] map.contains_key(k) && k
                        != key implies map[k] == value_map(names, updated)[k] by {
                        let j = choose|j: int| 0 <= j < names.len() && names[j] == k;
                        assert(map[names[j]] == values[j]);
                        assert(value_map(names, updated)[names[j]] == updated[j]);
                    }
                    assert(value_map(names, updated)[names[i as int]] == value);
                    assert(value_map(names, updated) =~= map.insert(key, value));
                }
            },
            None => {
                entries.push((name, value));
                proof {
                    assert(entry_names(entries@) =~= names.push(key));
                    assert(entry_values(entries@) =~= values.push(value));
                    assert(names.push(key).no_duplicates());
                    assert(names.push(key).drop_last() =~= names);
                    assert(values.push(value).drop_last() =~= values);
                }
            },
        }
        Table { entries }
    }

    /// The names with their values, in the order in which they came.
    pub fn into_entries(self) -> (r: Vec<(String, T)>)
        ensures
            entry_names(r@) == self.names(),
            entry_values(r@) == self.values(),
    {
        self.entries
    }

    /// The names, in the order in which they came.
    pub fn keys(&self) -> (r: Vec<String>)
        ensures
            texts(r@) == self.names(),
    {
        let mut out: Vec<String> = Vec::new();
        let mut i: usize = 0;
        while i < self.entries.len()
            invariant
                i <= self.entries@.len(),
                texts(out@) == self.names().take(i as int),
            decreases self.entries.len() - i,
        {
            let ghost before = texts(out@);
            out.push(self.entries[i].0.clone());
            assert(texts(out@) =~= before.push(self.names()[i as int]));
            i = i + 1;
            assert(texts(out@) =~= self.names().take(i as int));
        }
        assert(self.names().take(self.entries@.len() as int) =~= self.names());
        out
    }
}

} // verus!
