//! A map from texts to values, kept as a list of entries.
use vstd::prelude::*;

use crate::text::same_text;

verus! {

/// The entry at position `i` is the one for `key`.
pub open spec fn is_entry_for<V>(entries: Seq<(String, V)>, key: Seq<char>, i: int) -> bool {
    &&& 0 <= i < entries.len()
    &&& entries[i].0@ == key
}

/// No key occurs twice.
pub open spec fn distinct_keys<V>(entries: Seq<(String, V)>) -> bool {
    forall|i: int, j: int|
        0 <= i < j < entries.len() ==> (#[trigger] entries[i]).0@ != (#[trigger] entries[j]).0@
}

/// The map that a list of entries stands for.
pub open spec fn map_of<V>(entries: Seq<(String, V)>) -> Map<Seq<char>, V> {
    Map::new(
        |key: Seq<char>| exists|i: int| is_entry_for(entries, key, i),
        |key: Seq<char>| entries[choose|i: int| is_entry_for(entries, key, i)].1,
    )
}

/// Among distinct keys an entry is what the map holds under its key.
pub proof fn lemma_entry_in_map<V>(entries: Seq<(String, V)>, i: int)
    requires
        distinct_keys(entries),
        0 <= i < entries.len(),
    ensures
        map_of(entries).contains_key(entries[i].0@),
        map_of(entries)[entries[i].0@] == entries[i].1,
{
    let key = entries[i].0@;
    assert(is_entry_for(entries, key, i));
    let j = choose|j: int| is_entry_for(entries, key, j);
    assert(is_entry_for(entries, key, j));
    if i < j {
        assert(entries[i].0@ != entries[j].0@);
    } else if j < i {
        assert(entries[j].0@ != entries[i].0@);
    }
}

/// A key of the map has an entry.
pub proof fn lemma_key_has_entry<V>(entries: Seq<(String, V)>, key: Seq<char>) -> (i: int)
    requires
        map_of(entries).contains_key(key),
    ensures
        is_entry_for(entries, key, i),
{
    choose|i: int| is_entry_for(entries, key, i)
}

/// An entry under a new key adds that key.
proof fn lemma_push_entry<V>(entries: Seq<(String, V)>, entry: (String, V))
    requires
        distinct_keys(entries),
        forall|i: int| 0 <= i < entries.len() ==> (#[trigger] entries[i]).0@ != entry.0@,
    ensures
        distinct_keys(entries.push(entry)),
        map_of(entries.push(entry)) == map_of(entries).insert(entry.0@, entry.1),
{
    let longer = entries.push(entry);
    let before = map_of(entries).insert(entry.0@, entry.1);
    let after = map_of(longer);
    assert forall|key: Seq<char>| after.contains_key(key) == before.contains_key(key) by {
        if after.contains_key(key) {
            let i = lemma_key_has_entry(longer, key);
            if i < entries.len() {
                assert(is_entry_for(entries, key, i));
            }
        }
        if before.contains_key(key) {
            if key == entry.0@ {
                assert(is_entry_for(longer, key, entries.len() as int));
            } else {
                let i = lemma_key_has_entry(entries, key);
                assert(is_entry_for(longer, key, i));
            }
        }
    }
    assert forall|key: Seq<char>| after.contains_key(key) implies after[key] == before[key] by {
        let i = lemma_key_has_entry(longer, key);
        lemma_entry_in_map(longer, i);
        if i < entries.len() {
            lemma_entry_in_map(entries, i);
            assert(entries[i].0@ != entry.0@);
        }
    }
    assert(after =~= before);
}

/// A new value in an entry replaces what the map holds under its key.
proof fn lemma_replace_entry<V>(entries: Seq<(String, V)>, i: int, entry: (String, V))
    requires
        distinct_keys(entries),
        0 <= i < entries.len(),
        entries[i].0@ == entry.0@,
    ensures
        distinct_keys(entries.update(i, entry)),
        map_of(entries.update(i, entry)) == map_of(entries).insert(entry.0@, entry.1),
{
    let changed = entries.update(i, entry);
    let before = map_of(entries).insert(entry.0@, entry.1);
    let after = map_of(changed);
    assert forall|j: int| 0 <= j < entries.len() implies (#[trigger] changed[j]).0@
        == entries[j].0@ by {}
    assert(distinct_keys(changed)) by {
        assert forall|j: int, k: int| 0 <= j < k < changed.len() implies (
        #[trigger] changed[j]).0@ != (#[trigger] changed[k]).0@ by {
            assert(entries[j].0@ != entries[k].0@);
        }
    }
    assert forall|key: Seq<char>| after.contains_key(key) == before.contains_key(key) by {
        if after.contains_key(key) {
            let j = lemma_key_has_entry(changed, key);
            assert(is_entry_for(entries, key, j));
        }
        if before.contains_key(key) {
            if key == entry.0@ {
                assert(is_entry_for(changed, key, i));
            } else {
                let j = lemma_key_has_entry(entries, key);
                assert(is_entry_for(changed, key, j));
            }
        }
    }
    assert forall|key: Seq<char>| after.contains_key(key) implies after[key] == before[key] by {
        let j = lemma_key_has_entry(changed, key);
        lemma_entry_in_map(changed, j);
        lemma_entry_in_map(entries, j);
        if j != i && key == entry.0@ {
            if j < i {
                assert(entries[j].0@ != entries[i].0@);
            } else {
                assert(entries[i].0@ != entries[j].0@);
            }
        }
    }
    assert(after =~= before);
}

/// A map from texts to values. Each key occurs once.
#[derive(Debug)]
pub struct StringMap<V> {
    pub(crate) entries: Vec<(String, V)>,
}

impl<V> View for StringMap<V> {
    type V = Map<Seq<char>, V>;

    closed spec fn view(&self) -> Map<Seq<char>, V> {
        map_of(self.entries@)
    }
}

impl<V> StringMap<V> {
    #[verifier::type_invariant]
    pub(crate) open spec fn inv(self) -> bool {
        distinct_keys(self.entries@)
    }

    /// The view of a map is what its entries stand for.
    pub(crate) proof fn lemma_view(&self)
        ensures
            self@ == map_of(self.entries@),
    {
    }

    /// What a map holds is a part of it.
    pub proof fn lemma_value_decreases(&self, key: Seq<char>)
        requires
            self@.contains_key(key),
        ensures
            decreases_to!(*self => self@[key]),
    {
        let i = choose|i: int| is_entry_for(self.entries@, key, i);
        assert(is_entry_for(self.entries@, key, i));
        assert(decreases_to!(*self => self.entries));
        assert(decreases_to!(self.entries => self.entries[i]));
        assert(decreases_to!(self.entries[i] => self.entries[i].1));
    }

    /// An empty map.
    pub fn new() -> (map: Self)
        ensures
            map@ == Map::<Seq<char>, V>::empty(),
    {
        let map = StringMap { entries: Vec::new() };
        assert(map@ =~= Map::<Seq<char>, V>::empty());
        map
    }

    fn position(&self, key: &str) -> (position: Option<usize>)
        ensures
            match position {
                Some(i) => is_entry_for(self.entries@, key@, i as int),
                None => !self@.contains_key(key@),
            },
    {
        let mut i: usize = 0;
        while i < self.entries.len()
            invariant
                forall|k: int| 0 <= k < i ==> (#[trigger] self.entries@[k]).0@ != key@,
                i <= self.entries@.len(),
            decreases self.entries@.len() - i,
        {
            if same_text(self.entries[i].0.as_str(), key) {
                return Some(i);
            }
            i += 1;
        }
        proof {
            if self@.contains_key(key@) {
                let k = lemma_key_has_entry(self.entries@, key@);
                assert(self.entries@[k].0@ != key@);
            }
        }
        None
    }

    /// What the map holds under `key`.
    pub fn get(&self, key: &str) -> (value: Option<&V>)
        ensures
            match value {
                Some(v) => self@.contains_key(key@) && self@[key@] == *v,
                None => !self@.contains_key(key@),
            },
    {
        proof {
            use_type_invariant(self);
        }
        match self.position(key) {
            Some(i) => {
                proof {
                    lemma_entry_in_map(self.entries@, i as int);
                }
                Some(&self.entries[i].1)
            },
            None => None,
        }
    }

    /// Puts `value` under `key`, in place of what was there.
    pub fn insert(&mut self, key: String, value: V)
        ensures
            final(self)@ == old(self)@.insert(key@, value),
    {
        proof {
            use_type_invariant(&*self);
        }
        let position = self.position(key.as_str());
        let mut entries: Vec<(String, V)> = Vec::new();
        std::mem::swap(&mut entries, &mut self.entries);
        match position {
            Some(i) => {
                proof {
                    lemma_replace_entry(entries@, i as int, (key, value));
                }
                entries.set(i, (key, value));
            },
            None => {
                proof {
                    assert forall|i: int| 0 <= i < entries@.len() implies (
                    #[trigger] entries@[i]).0@ != key@ by {
                        lemma_entry_in_map(entries@, i);
                    }
                    lemma_push_entry(entries@, (key, value));
                }
                entries.push((key, value));
            },
        }
        self.entries = entries;
    }

    /// The keys of the map, each once.
    pub fn keys(&self) -> (keys: Vec<String>)
        ensures
            forall|i: int, j: int|
                0 <= i < j < keys@.len() ==> (#[trigger] keys@[i])@ != (#[trigger] keys@[j])@,
            forall|i: int| 0 <= i < keys@.len() ==> self@.contains_key((#[trigger] keys@[i])@),
            forall|key: Seq<char>| #[trigger]
                self@.contains_key(key) ==> exists|i: int|
                    0 <= i < keys@.len() && (#[trigger] keys@[i])@ == key,
    {
        proof {
            use_type_invariant(self);
        }
        let mut keys: Vec<String> = Vec::new();
        let mut i: usize = 0;
        while i < self.entries.len()
            invariant
                i <= self.entries@.len(),
                keys@.len() == i,
                forall|k: int| 0 <= k < i ==> (#[trigger] keys@[k])@ == self.entries@[k].0@,
            decreases self.entries@.len() - i,
        {
            keys.push(self.entries[i].0.clone());
            i += 1;
        }
        proof {
            assert forall|k: int| 0 <= k < keys@.len() implies self@.contains_key(
                (#[trigger] keys@[k])@,
            ) by {
                lemma_entry_in_map(self.entries@, k);
            }
            assert forall|key: Seq<char>| #[trigger] self@.contains_key(key) implies exists|k: int|
                0 <= k < keys@.len() && (#[trigger] keys@[k])@ == key by {
                let k = lemma_key_has_entry(self.entries@, key);
                assert(keys@[k]@ == key);
            }
        }
        keys
    }
}

impl<T> StringMap<Vec<T>> {
    /// Adds `item` at the end of the list under `key`, which starts empty.
    pub fn push(&mut self, key: String, item: T)
        ensures
            final(self)@.dom() == old(self)@.dom().insert(key@),
            final(self)@[key@]@ == (if old(self)@.contains_key(key@) {
                old(self)@[key@]@
            } else {
                Seq::empty()
            }).push(item),
            forall|k: Seq<char>|
                k != key@ && old(self)@.contains_key(k) ==> #[trigger] final(self)@[k] == old(
                    self,
                )@[k],
    {
        proof {
            use_type_invariant(&*self);
        }
        let position = self.position(key.as_str());
        match position {
            Some(i) => {
                let mut entries: Vec<(String, Vec<T>)> = Vec::new();
                std::mem::swap(&mut entries, &mut self.entries);
                let ghost before = entries@;
                entries[i].1.push(item);
                proof {
                    lemma_entry_in_map(before, i as int);
                    lemma_replace_entry(before, i as int, entries@[i as int]);
                    assert(entries@ =~= before.update(i as int, entries@[i as int]));
                }
                self.entries = entries;
            },
            None => {
                let mut items: Vec<T> = Vec::new();
                items.push(item);
                self.insert(key, items);
            },
        }
        assert(self@.dom() =~= old(self)@.dom().insert(key@));
    }
}

impl<V: Clone> Clone for StringMap<V> {
    fn clone(&self) -> (copy: Self)
        ensures
            copy@.dom() == self@.dom(),
            forall|key: Seq<char>|
                self@.contains_key(key) ==> cloned::<V>(self@[key], #[trigger] copy@[key]),
    {
        proof {
            use_type_invariant(self);
        }
        let mut entries: Vec<(String, V)> = Vec::new();
        let mut i: usize = 0;
        while i < self.entries.len()
            invariant
                i <= self.entries@.len(),
                entries@.len() == i,
                forall|k: int|
                    0 <= k < i ==> (#[trigger] entries@[k]).0@ == self.entries@[k].0@
                        && cloned::<V>(self.entries@[k].1, entries@[k].1),
            decreases self.entries@.len() - i,
        {
            entries.push((self.entries[i].0.clone(), self.entries[i].1.clone()));
            i += 1;
        }
        assert forall|j: int, k: int| 0 <= j < k < entries@.len() implies (
        #[trigger] entries@[j]).0@ != (#[trigger] entries@[k]).0@ by {
            assert(self.entries@[j].0@ != self.entries@[k].0@);
        }
        let copy = StringMap { entries };
        proof {
            assert forall|key: Seq<char>| copy@.contains_key(key) == self@.contains_key(key) by {
                if copy@.contains_key(key) {
                    let k = lemma_key_has_entry(copy.entries@, key);
                    lemma_entry_in_map(self.entries@, k);
                }
                if self@.contains_key(key) {
                    let k = lemma_key_has_entry(self.entries@, key);
                    lemma_entry_in_map(copy.entries@, k);
                }
            }
            assert(copy@.dom() =~= self@.dom());
            assert forall|key: Seq<char>| self@.contains_key(key) implies cloned::<V>(
                self@[key],
                #[trigger] copy@[key],
            ) by {
                let k = lemma_key_has_entry(self.entries@, key);
                lemma_entry_in_map(self.entries@, k);
                lemma_entry_in_map(copy.entries@, k);
            }
        }
        copy
    }
}

} // verus!
