//! A map keyed by path that holds each key once.

use vstd::prelude::*;
use crate::path::ProjectPath;

verus! {

/// No two entries have the same path.
pub open spec fn distinct_keys<V>(entries: Seq<(ProjectPath, V)>) -> bool {
    forall|i: int, j: int|
        0 <= i < j < entries.len() ==> (#[trigger] entries[i]).0@ != (#[trigger] entries[j]).0@
}

/// Whether the entry at index `i` has the path `key`.
pub open spec fn keyed_at<V>(entries: Seq<(ProjectPath, V)>, key: Seq<Seq<char>>, i: int) -> bool {
    0 <= i < entries.len() && entries[i].0@ == key
}

/// The map that a list of entries with distinct paths stands for.
pub open spec fn as_map<V>(entries: Seq<(ProjectPath, V)>) -> Map<Seq<Seq<char>>, V> {
    Map::new(
        |key: Seq<Seq<char>>| exists|i: int| keyed_at(entries, key, i),
        |key: Seq<Seq<char>>| entries[choose|i: int| keyed_at(entries, key, i)].1,
    )
}

/// In a list with distinct paths, each entry is what the map holds at its path.
pub proof fn lemma_entry_is_mapped<V>(entries: Seq<(ProjectPath, V)>, i: int)
    requires
        distinct_keys(entries),
        0 <= i < entries.len(),
    ensures
        as_map(entries).contains_key(entries[i].0@),
        as_map(entries)[entries[i].0@] == entries[i].1,
{
    let key = entries[i].0@;
    assert(keyed_at(entries, key, i));
    let j = choose|j: int| keyed_at(entries, key, j);
    if j < i {
        assert(entries[j].0@ != entries[i].0@);
    } else if i < j {
        assert(entries[i].0@ != entries[j].0@);
    }
}

/// A map from paths to values. Writing to a path that is present replaces its
/// value, so the last write to a path is the one that stays.
pub struct PathMap<V> {
    entries: Vec<(ProjectPath, V)>,
}

impl<V> View for PathMap<V> {
    type V = Map<Seq<Seq<char>>, V>;

    closed spec fn view(&self) -> Map<Seq<Seq<char>>, V> {
        as_map(self.entries@)
    }
}

impl<V> PathMap<V> {
    #[verifier::type_invariant]
    spec fn keys_distinct(self) -> bool {
        distinct_keys(self.entries@)
    }

    /// The paths of the map in the order in which they were first written.
    pub closed spec fn keys(self) -> Seq<Seq<Seq<char>>> {
        self.entries@.map_values(|e: (ProjectPath, V)| e.0@)
    }

    /// The empty map.
    pub fn new() -> (map: PathMap<V>)
        ensures
            map@ == Map::<Seq<Seq<char>>, V>::empty(),
            map.keys() == Seq::<Seq<Seq<char>>>::empty(),
    {
        let map = PathMap { entries: Vec::new() };
        assert(map@ =~= Map::<Seq<Seq<char>>, V>::empty());
        assert(map.keys() =~= Seq::<Seq<Seq<char>>>::empty());
        map
    }

    /// The number of paths in the map.
    pub fn len(&self) -> (n: usize)
        ensures
            n == self.keys().len(),
            n == self@.dom().len(),
            self@.dom().finite(),
    {
        proof {
            use_type_invariant(self);
            lemma_domain_size(self.entries@);
        }
        self.entries.len()
    }

    /// The path at index `i`, in the order of first writing.
    pub fn key(&self, i: usize) -> (key: &ProjectPath)
        requires
            i < self.keys().len(),
        ensures
            key@ == self.keys()[i as int],
            self@.contains_key(key@),
    {
        proof {
            use_type_invariant(self);
            lemma_entry_is_mapped(self.entries@, i as int);
        }
        &self.entries[i].0
    }

    /// The value at index `i`, in the order of first writing.
    pub fn value(&self, i: usize) -> (value: &V)
        requires
            i < self.keys().len(),
        ensures
            self@.contains_key(self.keys()[i as int]),
            *value == self@[self.keys()[i as int]],
    {
        proof {
            use_type_invariant(self);
            lemma_entry_is_mapped(self.entries@, i as int);
        }
        &self.entries[i].1
    }

    fn position(&self, key: &ProjectPath) -> (found: Option<usize>)
        ensures
            match found {
                Some(i) => keyed_at(self.entries@, key@, i as int),
                None => forall|j: int| !keyed_at(self.entries@, key@, j),
            },
    {
        let mut i: usize = 0;
        while i < self.entries.len()
            invariant
                i <= self.entries.len(),
                forall|j: int| 0 <= j < i ==> !keyed_at(self.entries@, key@, j),
            decreases self.entries.len() - i,
        {
            if self.entries[i].0.equals(key) {
                return Some(i);
            }
            i += 1;
        }
        None
    }

    /// Whether the map holds `key`.
    pub fn contains(&self, key: &ProjectPath) -> (present: bool)
        ensures
            present == self@.contains_key(key@),
    {
        self.position(key).is_some()
    }

    /// The value at `key`, if the map holds one.
    pub fn get(&self, key: &ProjectPath) -> (value: Option<&V>)
        ensures
            value is Some == self@.contains_key(key@),
            value matches Some(v) ==> *v == self@[key@],
    {
        proof {
            use_type_invariant(self);
        }
        match self.position(key) {
            Some(i) => {
                proof {
                    lemma_entry_is_mapped(self.entries@, i as int);
                }
                Some(&self.entries[i].1)
            },
            None => None,
        }
    }

    /// Writes `value` at `key`, and returns the value that was there, if any.
    pub fn insert(&mut self, key: ProjectPath, value: V) -> (replaced: Option<V>)
        ensures
            final(self)@ == old(self)@.insert(key@, value),
            final(self).keys() == if old(self)@.contains_key(key@) {
                old(self).keys()
            } else {
                old(self).keys().push(key@)
            },
            replaced == if old(self)@.contains_key(key@) {
                Some(old(self)@[key@])
            } else {
                None
            },
    {
        proof {
            use_type_invariant(&*self);
        }
        let found = self.position(&key);
        let mut entries: Vec<(ProjectPath, V)> = Vec::new();
        core::mem::swap(&mut self.entries, &mut entries);
        let ghost before = entries@;
        let replaced = match found {
            Some(i) => {
                entries.push((key, value));
                let (_, replaced) = entries.swap_remove(i);
                proof {
                    let after = entries@;
                    assert(after =~= before.update(i as int, (key, value)));
                    lemma_entry_is_mapped(before, i as int);
                    assert forall|a: int, b: int| 0 <= a < b < after.len() implies (
                    #[trigger] after[a]).0@ != (#[trigger] after[b]).0@ by {
                        assert(after[a].0@ == before[a].0@);
                        assert(after[b].0@ == before[b].0@);
                    }
                    assert forall|k: Seq<Seq<char>>|
                        as_map(after).contains_key(k) == as_map(before).insert(
                            key@,
                            value,
                        ).contains_key(k) by {
                        if as_map(after).contains_key(k) {
                            let j = choose|j: int| keyed_at(after, k, j);
                            assert(keyed_at(before, k, j));
                        }
                        if as_map(before).contains_key(k) {
                            let j = choose|j: int| keyed_at(before, k, j);
                            assert(keyed_at(after, k, j));
                        }
                        if k == key@ {
                            assert(keyed_at(after, k, i as int));
                        }
                    }
                    assert forall|k: Seq<Seq<char>>| as_map(after).contains_key(k) implies as_map(
                        after,
                    )[k] == as_map(before).insert(key@, value)[k] by {
                        let j = choose|j: int| keyed_at(after, k, j);
                        lemma_entry_is_mapped(after, j);
                        if j != i {
                            lemma_entry_is_mapped(before, j);
                        }
                    }
                    assert(as_map(after) =~= as_map(before).insert(key@, value));
                    assert(keyed_at(before, key@, i as int));
                    assert(after.map_values(|e: (ProjectPath, V)| e.0@) =~= before.map_values(
                        |e: (ProjectPath, V)| e.0@,
                    ));
                }
                Some(replaced)
            },
            None => {
                entries.push((key, value));
                proof {
                    let after = entries@;
                    assert forall|a: int, b: int| 0 <= a < b < after.len() implies (
                    #[trigger] after[a]).0@ != (#[trigger] after[b]).0@ by {
                        if b == before.len() {
                            assert(!keyed_at(before, key@, a));
                        }
                    }
                    assert forall|k: Seq<Seq<char>>|
                        as_map(after).contains_key(k) == as_map(before).insert(
                            key@,
                            value,
                        ).contains_key(k) by {
                        if as_map(after).contains_key(k) {
                            let j = choose|j: int| keyed_at(after, k, j);
                            if j < before.len() {
                                assert(keyed_at(before, k, j));
                            }
                        }
                        if as_map(before).contains_key(k) {
                            let j = choose|j: int| keyed_at(before, k, j);
                            assert(keyed_at(after, k, j));
                        }
                        if k == key@ {
                            assert(keyed_at(after, k, before.len() as int));
                        }
                    }
                    assert forall|k: Seq<Seq<char>>| as_map(after).contains_key(k) implies as_map(
                        after,
                    )[k] == as_map(before).insert(key@, value)[k] by {
                        let j = choose|j: int| keyed_at(after, k, j);
                        lemma_entry_is_mapped(after, j);
                        if j < before.len() {
                            lemma_entry_is_mapped(before, j);
                        }
                    }
                    assert(as_map(after) =~= as_map(before).insert(key@, value));
                    assert(!as_map(before).contains_key(key@)) by {
                        if as_map(before).contains_key(key@) {
                            let j = choose|j: int| keyed_at(before, key@, j);
                            assert(keyed_at(before, key@, j));
                        }
                    }
                    assert(after.map_values(|e: (ProjectPath, V)| e.0@) =~= before.map_values(
                        |e: (ProjectPath, V)| e.0@,
                    ).push(key@));
                }
                None
            },
        };
        self.entries = entries;
        replaced
    }

    /// The entries of the map, in the order of first writing.
    pub fn into_entries(self) -> (entries: Vec<(ProjectPath, V)>)
        ensures
            distinct_keys(entries@),
            as_map(entries@) == self@,
            entries@.map_values(|e: (ProjectPath, V)| e.0@) == self.keys(),
    {
        proof {
            use_type_invariant(&self);
        }
        self.entries
    }
}

proof fn lemma_domain_size<V>(entries: Seq<(ProjectPath, V)>)
    requires
        distinct_keys(entries),
    ensures
        as_map(entries).dom().finite(),
        as_map(entries).dom().len() == entries.len(),
    decreases entries.len(),
{
    if entries.len() == 0 {
        assert(as_map(entries).dom() =~= Set::<Seq<Seq<char>>>::empty());
    } else {
        let front = entries.drop_last();
        let last = entries.last().0@;
        lemma_domain_size(front);
        assert forall|k: Seq<Seq<char>>|
            as_map(entries).dom().contains(k) == as_map(front).dom().insert(last).contains(k) by {
            if as_map(entries).dom().contains(k) {
                let j = choose|j: int| keyed_at(entries, k, j);
                if j < front.len() {
                    assert(keyed_at(front, k, j));
                }
            }
            if as_map(front).dom().contains(k) {
                let j = choose|j: int| keyed_at(front, k, j);
                assert(keyed_at(entries, k, j));
            }
            if k == last {
                assert(keyed_at(entries, k, entries.len() - 1));
            }
        }
        assert(as_map(entries).dom() =~= as_map(front).dom().insert(last));
        assert(!as_map(front).dom().contains(last)) by {
            if as_map(front).dom().contains(last) {
                let j = choose|j: int| keyed_at(front, last, j);
                assert(entries[j].0@ != entries[entries.len() - 1].0@);
            }
        }
    }
}

} // verus!
