//! A map from names to records, kept as a list in which no name occurs twice.

use vstd::prelude::*;

verus! {

/// A name and the record stored under it.
struct Entry<V> {
    key: String,
    value: V,
}

/// A map keyed by name. It holds at most one record for a name: storing under
/// a name that is present replaces the record.
pub struct Registry<V> {
    entries: Vec<Entry<V>>,
}

/// No name occurs twice in the list.
spec fn distinct_keys<V>(entries: Seq<Entry<V>>) -> bool {
    forall|i: int, j: int|
        0 <= i < j < entries.len() ==> (#[trigger] entries[i]).key@ != (#[trigger] entries[j]).key@
}

/// Some entry of the list has the name `key`.
spec fn has_key<V>(entries: Seq<Entry<V>>, key: Seq<char>) -> bool {
    exists|i: int| 0 <= i < entries.len() && (#[trigger] entries[i]).key@ == key
}

/// The place of an entry with the name `key`.
spec fn position<V>(entries: Seq<Entry<V>>, key: Seq<char>) -> int {
    choose|i: int| 0 <= i < entries.len() && (#[trigger] entries[i]).key@ == key
}

/// The map that a list of entries stands for.
spec fn as_map<V>(entries: Seq<Entry<V>>) -> Map<Seq<char>, V> {
    Map::new(
        |key: Seq<char>| has_key(entries, key),
        |key: Seq<char>| entries[position(entries, key)].value,
    )
}

/// In a list without repeated names, the entry at place `i` is what the map
/// holds under its name.
proof fn lemma_entry_is_mapped<V>(entries: Seq<Entry<V>>, i: int)
    requires
        distinct_keys(entries),
        0 <= i < entries.len(),
    ensures
        as_map(entries).contains_key(entries[i].key@),
        as_map(entries)[entries[i].key@] == entries[i].value,
{
    let key = entries[i].key@;
    assert(has_key(entries, key));
    let j = position(entries, key);
    assert(0 <= j < entries.len() && entries[j].key@ == key);
    assert(i == j);
}

/// A name under which the map holds something is the name of some entry.
proof fn lemma_mapped_is_entry<V>(entries: Seq<Entry<V>>, key: Seq<char>)
    requires
        as_map(entries).contains_key(key),
    ensures
        0 <= position(entries, key) < entries.len(),
        entries[position(entries, key)].key@ == key,
        as_map(entries)[key] == entries[position(entries, key)].value,
{
    assert(has_key(entries, key));
}

/// A list that took an entry named `name` at place `i`, in place of the one
/// entry of that name if there was one, and kept every other entry where it
/// was, stands for the old map with `value` stored under `name`.
proof fn lemma_entry_stored<V>(
    before: Seq<Entry<V>>,
    after: Seq<Entry<V>>,
    i: int,
    name: Seq<char>,
    value: V,
)
    requires
        distinct_keys(before),
        0 <= i < after.len(),
        after[i].key@ == name,
        after[i].value == value,
        forall|a: int|
            0 <= a < after.len() && a != i ==> a < before.len() && #[trigger] after[a]
                == before[a],
        before.len() <= after.len(),
        i < before.len() ==> before[i].key@ == name,
        forall|b: int| 0 <= b < before.len() && (#[trigger] before[b]).key@ == name ==> b == i,
    ensures
        distinct_keys(after),
        as_map(after) == as_map(before).insert(name, value),
{
    assert forall|a: int, b: int| 0 <= a < b < after.len() implies (#[trigger] after[a]).key@ != (
    #[trigger] after[b]).key@ by {
        if a != i {
            assert(after[a] == before[a]);
        }
        if b != i {
            assert(after[b] == before[b]);
        }
    }
    assert forall|k: Seq<char>| has_key(after, k) == (k == name || has_key(before, k)) by {
        if has_key(before, k) && k != name {
            let j = position(before, k);
            assert(after[j] == before[j]);
        }
        if has_key(after, k) && k != name {
            let j = position(after, k);
            assert(after[j] == before[j]);
        }
    }
    assert forall|k: Seq<char>| has_key(after, k) implies as_map(after)[k] == (if k == name {
        value
    } else {
        as_map(before)[k]
    }) by {
        let j = position(after, k);
        lemma_entry_is_mapped(after, j);
        if k != name {
            assert(after[j] == before[j]);
            lemma_entry_is_mapped(before, j);
        } else {
            lemma_entry_is_mapped(after, i);
        }
    }
    assert(as_map(after) =~= as_map(before).insert(name, value));
}

impl<V> View for Registry<V> {
    type V = Map<Seq<char>, V>;

    closed spec fn view(&self) -> Map<Seq<char>, V> {
        as_map(self.entries@)
    }
}

impl<V> Registry<V> {
    #[verifier::type_invariant]
    spec fn no_name_twice(self) -> bool {
        distinct_keys(self.entries@)
    }

    /// The empty map.
    pub fn new() -> (registry: Registry<V>)
        ensures
            registry@ == Map::<Seq<char>, V>::empty(),
    {
        let registry = Registry { entries: Vec::new() };
        assert(registry@ =~= Map::<Seq<char>, V>::empty());
        registry
    }

    /// The place of the entry named `key`, if there is one.
    fn find(&self, key: &String) -> (place: Option<usize>)
        ensures
            match place {
                Some(i) => i < self.entries@.len() && self.entries@[i as int].key@ == key@,
                None => !has_key(self.entries@, key@),
            },
    {
        let mut i: usize = 0;
        while i < self.entries.len()
            invariant
                i <= self.entries@.len(),
                forall|j: int| 0 <= j < i ==> (#[trigger] self.entries@[j]).key@ != key@,
            decreases self.entries@.len() - i,
        {
            if self.entries[i].key == *key {
                return Some(i);
            }
            i = i + 1;
        }
        None
    }

    /// The record stored under `key`, if there is one.
    pub fn get(&self, key: &String) -> (found: Option<&V>)
        ensures
            match found {
                Some(value) => self@.contains_key(key@) && *value == self@[key@],
                None => !self@.contains_key(key@),
            },
    {
        proof {
            use_type_invariant(self);
        }
        match self.find(key) {
            Some(i) => {
                proof {
                    lemma_entry_is_mapped(self.entries@, i as int);
                }
                Some(&self.entries[i].value)
            },
            None => None,
        }
    }

    /// Stores `value` under `key`, in place of what was stored there.
    pub fn insert(&mut self, key: String, value: V)
        ensures
            final(self)@ == old(self)@.insert(key@, value),
    {
        proof {
            use_type_invariant(&*self);
        }
        let ghost before = self.entries@;
        let ghost name = key@;
        let place = self.find(&key);
        let mut entries: Vec<Entry<V>> = Vec::new();
        core::mem::swap(&mut self.entries, &mut entries);
        match place {
            Some(i) => {
                entries.set(i, Entry { key, value });
                proof {
                    lemma_entry_stored(before, entries@, i as int, name, value);
                }
            },
            None => {
                entries.push(Entry { key, value });
                proof {
                    lemma_entry_stored(before, entries@, before.len() as int, name, value);
                }
            },
        }
        self.entries = entries;
    }

    /// Takes out what is stored under `key` and returns it, if there is
    /// anything.
    pub fn remove(&mut self, key: &String) -> (removed: Option<V>)
        ensures
            final(self)@ == old(self)@.remove(key@),
            match removed {
                Some(value) => old(self)@.contains_key(key@) && value == old(self)@[key@],
                None => !old(self)@.contains_key(key@),
            },
    {
        proof {
            use_type_invariant(&*self);
        }
        let ghost before = self.entries@;
        let ghost name = key@;
        match self.find(key) {
            Some(i) => {
                let mut entries: Vec<Entry<V>> = Vec::new();
                core::mem::swap(&mut self.entries, &mut entries);
                let entry = entries.remove(i);
                proof {
                    let after = entries@;
                    lemma_entry_is_mapped(before, i as int);
                    assert forall|a: int| 0 <= a < after.len() implies #[trigger] after[a] == (
                    if a < i {
                        before[a]
                    } else {
                        before[a + 1]
                    }) by {}
                    assert(distinct_keys(after)) by {
                        assert forall|a: int, b: int| 0 <= a < b < after.len() implies (
                        #[trigger] after[a]).key@ != (#[trigger] after[b]).key@ by {
                            let a0 = if a < i { a } else { a + 1 };
                            let b0 = if b < i { b } else { b + 1 };
                            assert(after[a] == before[a0] && after[b] == before[b0]);
                        }
                    }
                    assert forall|k: Seq<char>| has_key(after, k) == (k != name && has_key(
                        before,
                        k,
                    )) by {
                        if has_key(before, k) && k != name {
                            let j = position(before, k);
                            let j1 = if j < i { j } else { j - 1 };
                            assert(after[j1] == before[j]);
                        }
                        if has_key(after, k) {
                            let j = position(after, k);
                            let j0 = if j < i { j } else { j + 1 };
                            assert(after[j] == before[j0]);
                            assert(before[j0].key@ == k);
                            assert(j0 != i);
                        }
                    }
                    assert forall|k: Seq<char>| has_key(after, k) implies as_map(after)[k]
                        == as_map(before)[k] by {
                        let j = position(after, k);
                        let j0 = if j < i { j } else { j + 1 };
                        assert(after[j] == before[j0]);
                        lemma_entry_is_mapped(after, j);
                        lemma_entry_is_mapped(before, j0);
                    }
                    assert(as_map(after) =~= as_map(before).remove(name));
                }
                self.entries = entries;
                Some(entry.value)
            },
            None => {
                assert(as_map(before) =~= as_map(before).remove(name));
                None
            },
        }
    }
}

} // verus!
