//! A map keyed by strings that keeps its entries in the order in which their
//! keys were first inserted.

use vstd::prelude::*;

verus! {

/// Where `key` stands in `keys`: the first position that holds it.
pub open spec fn position_of(keys: Seq<Seq<char>>, key: Seq<char>) -> Option<int> {
    if keys.contains(key) {
        Some(keys.index_of(key))
    } else {
        None
    }
}

/// In a list without repetition, an element's position is the one place
/// that holds it.
pub proof fn lemma_position_unique(keys: Seq<Seq<char>>, key: Seq<char>, i: int)
    requires
        keys.no_duplicates(),
        0 <= i < keys.len(),
        keys[i] == key,
    ensures
        position_of(keys, key) == Some(i),
{
    assert(keys.contains(key));
    let j = keys.index_of(key);
    assert(0 <= j < keys.len() && keys[j] == key);
    if j != i {
        assert(keys[i] != keys[j]);
    }
}

/// Appending a key that a list without repetition lacks keeps it free of
/// repetition.
pub proof fn lemma_push_fresh(keys: Seq<Seq<char>>, key: Seq<char>)
    requires
        keys.no_duplicates(),
        !keys.contains(key),
    ensures
        keys.push(key).no_duplicates(),
{
    let next = keys.push(key);
    assert forall|a: int, b: int| 0 <= a < next.len() && 0 <= b < next.len() && a != b implies next[a]
        != next[b] by {
        if a < keys.len() {
            assert(keys.contains(keys[a]));
        }
        if b < keys.len() {
            assert(keys.contains(keys[b]));
        }
    }
}

/// Taking one element out of a list without repetition keeps it free of
/// repetition.
pub proof fn lemma_remove_keeps_distinct(keys: Seq<Seq<char>>, i: int)
    requires
        keys.no_duplicates(),
        0 <= i < keys.len(),
    ensures
        keys.remove(i).no_duplicates(),
        !keys.remove(i).contains(keys[i]),
{
    let next = keys.remove(i);
    assert forall|a: int, b: int| 0 <= a < next.len() && 0 <= b < next.len() && a != b implies next[a]
        != next[b] by {
        let a0 = if a < i { a } else { a + 1 };
        let b0 = if b < i { b } else { b + 1 };
        assert(next[a] == keys[a0]);
        assert(next[b] == keys[b0]);
    }
    if next.contains(keys[i]) {
        let a = next.index_of(keys[i]);
        assert(0 <= a < next.len() && next[a] == keys[i]);
        let a0 = if a < i { a } else { a + 1 };
        assert(next[a] == keys[a0]);
    }
}

/// The keys of a list of entries.
pub open spec fn entry_keys<V>(entries: Seq<(String, V)>) -> Seq<Seq<char>> {
    entries.map_values(|e: (String, V)| e.0@)
}

/// An insertion-ordered map from strings to `V`. No key occurs twice.
#[derive(Debug)]
pub struct StrMap<V> {
    entries: Vec<(String, V)>,
}

impl<V> StrMap<V> {
    /// The keys, in insertion order.
    pub closed spec fn keys(&self) -> Seq<Seq<char>> {
        entry_keys(self.entries@)
    }

    /// The values, each at the position of its key.
    pub closed spec fn values(&self) -> Seq<V> {
        self.entries@.map_values(|e: (String, V)| e.1)
    }

    /// Validity: as many values as keys, and no key twice.
    #[verifier::type_invariant]
    pub closed spec fn wf(&self) -> bool {
        self.keys().no_duplicates()
    }

    /// Whether the map holds `key`.
    pub open spec fn has(&self, key: Seq<char>) -> bool {
        self.keys().contains(key)
    }

    /// The value stored under `key`, for a key that the map holds.
    pub open spec fn value_of(&self, key: Seq<char>) -> V
        recommends
            self.has(key),
    {
        self.values()[self.keys().index_of(key)]
    }

    /// Keys and values always come in equal numbers.
    pub proof fn lemma_same_len(&self)
        ensures
            self.keys().len() == self.values().len(),
    {
    }

    /// In a valid map no key occurs twice.
    pub proof fn lemma_distinct(&self)
        requires
            self.wf(),
        ensures
            self.keys().no_duplicates(),
    {
    }

    /// A map without entries.
    pub fn new() -> (m: Self)
        ensures
            m.keys() == Seq::<Seq<char>>::empty(),
            m.values() == Seq::<V>::empty(),
    {
        let m = StrMap { entries: Vec::new() };
        proof {
            assert(m.keys() =~= Seq::<Seq<char>>::empty());
            assert(m.values() =~= Seq::<V>::empty());
        }
        m
    }

    /// The map with the given entries in their order, where no key occurs
    /// twice among them; nothing where one does.
    pub fn from_entries(entries: Vec<(String, V)>) -> (r: Option<Self>)
        ensures
            match r {
                Some(m) => {
                    &&& entry_keys(entries@).no_duplicates()
                    &&& m.keys() == entry_keys(entries@)
                    &&& m.values() == entries@.map_values(|e: (String, V)| e.1)
                },
                None => !entry_keys(entries@).no_duplicates(),
            },
    {
        let ghost keys = entry_keys(entries@);
        let mut i: usize = 0;
        while i < entries.len()
            invariant
                i <= entries.len(),
                keys == entry_keys(entries@),
                forall|a: int, b: int| 0 <= a < b < i ==> keys[a] != keys[b],
            decreases entries.len() - i,
        {
            let mut j: usize = 0;
            while j < i
                invariant
                    j <= i < entries.len(),
                    keys == entry_keys(entries@),
                    forall|a: int| 0 <= a < j ==> keys[a] != keys[i as int],
                decreases i - j,
            {
                if entries[j].0.as_str().eq(entries[i].0.as_str()) {
                    proof {
                        assert(keys[j as int] == keys[i as int]);
                    }
                    return None;
                }
                j += 1;
            }
            i += 1;
        }
        proof {
            assert forall|a: int, b: int|
                0 <= a < keys.len() && 0 <= b < keys.len() && a != b implies keys[a] != keys[b] by {
                if a < b {
                } else {
                    assert(keys[b] != keys[a]);
                }
            }
        }
        Some(StrMap { entries })
    }

    /// How many entries the map holds.
    pub fn len(&self) -> (n: usize)
        ensures
            n == self.keys().len(),
            n == self.values().len(),
    {
        self.entries.len()
    }

    /// The key at position `i`.
    pub fn key_at(&self, i: usize) -> (k: &String)
        requires
            i < self.keys().len(),
        ensures
            k@ == self.keys()[i as int],
    {
        &self.entries[i].0
    }

    /// The value at position `i`.
    pub fn value_at(&self, i: usize) -> (v: &V)
        requires
            i < self.values().len(),
        ensures
            *v == self.values()[i as int],
    {
        &self.entries[i].1
    }

    /// The position of `key`, if the map holds it.
    pub fn find(&self, key: &str) -> (r: Option<usize>)
        ensures
            match r {
                Some(i) => i < self.keys().len() && self.keys()[i as int] == key@
                    && position_of(self.keys(), key@) == Some(i as int),
                None => !self.has(key@),
            },
    {
        proof {
            use_type_invariant(self);
        }
        let mut i: usize = 0;
        while i < self.entries.len()
            invariant
                i <= self.entries.len(),
                self.keys().no_duplicates(),
                forall|j: int| 0 <= j < i ==> self.keys()[j] != key@,
            decreases self.entries.len() - i,
        {
            if self.entries[i].0.as_str().eq(key) {
                proof {
                    lemma_position_unique(self.keys(), key@, i as int);
                }
                return Some(i);
            }
            i += 1;
        }
        None
    }

    /// Whether the map holds `key`.
    pub fn contains_key(&self, key: &str) -> (r: bool)
        ensures
            r == self.has(key@),
    {
        self.find(key).is_some()
    }

    /// The value stored under `key`, if any.
    pub fn get(&self, key: &str) -> (r: Option<&V>)
        ensures
            match r {
                Some(v) => self.has(key@) && *v == self.value_of(key@),
                None => !self.has(key@),
            },
    {
        match self.find(key) {
            Some(i) => Some(&self.entries[i].1),
            None => None,
        }
    }

    /// Stores `val` under `key`. A key that the map already holds keeps its
    /// position and gets the new value; a new key goes to the end.
    pub fn insert(&mut self, key: String, val: V)
        ensures
            match position_of(old(self).keys(), key@) {
                Some(i) => {
                    &&& final(self).keys() == old(self).keys()
                    &&& final(self).values() == old(self).values().update(i, val)
                },
                None => {
                    &&& final(self).keys() == old(self).keys().push(key@)
                    &&& final(self).values() == old(self).values().push(val)
                },
            },
    {
        proof {
            use_type_invariant(&*self);
        }
        let ghost old_keys = self.keys();
        let ghost old_values = self.values();
        match self.find(key.as_str()) {
            Some(i) => {
                let mut entries: Vec<(String, V)> = Vec::new();
                core::mem::swap(&mut self.entries, &mut entries);
                entries.set(i, (key, val));
                proof {
                    assert(entry_keys(entries@) =~= old_keys);
                }
                core::mem::swap(&mut self.entries, &mut entries);
                proof {
                    assert(self.keys() =~= old_keys);
                    assert(self.values() =~= old_values.update(i as int, val));
                }
            },
            None => {
                let mut entries: Vec<(String, V)> = Vec::new();
                core::mem::swap(&mut self.entries, &mut entries);
                entries.push((key, val));
                proof {
                    assert(entry_keys(entries@) =~= old_keys.push(key@));
                    lemma_push_fresh(old_keys, key@);
                }
                core::mem::swap(&mut self.entries, &mut entries);
                proof {
                    assert(self.keys() =~= old_keys.push(key@));
                    assert(self.values() =~= old_values.push(val));
                }
            },
        }
    }

    /// Takes `key` and its value out of the map; the other entries keep
    /// their order.
    pub fn remove(&mut self, key: &str) -> (r: Option<V>)
        ensures
            match position_of(old(self).keys(), key@) {
                Some(i) => {
                    &&& r == Some(old(self).values()[i])
                    &&& final(self).keys() == old(self).keys().remove(i)
                    &&& final(self).values() == old(self).values().remove(i)
                },
                None => {
                    &&& r is None
                    &&& final(self).keys() == old(self).keys()
                    &&& final(self).values() == old(self).values()
                },
            },
    {
        proof {
            use_type_invariant(&*self);
        }
        let ghost old_keys = self.keys();
        let ghost old_values = self.values();
        match self.find(key) {
            Some(i) => {
                let mut entries: Vec<(String, V)> = Vec::new();
                core::mem::swap(&mut self.entries, &mut entries);
                let e = entries.remove(i);
                proof {
                    assert(entry_keys(entries@) =~= old_keys.remove(i as int));
                    lemma_remove_keeps_distinct(old_keys, i as int);
                }
                core::mem::swap(&mut self.entries, &mut entries);
                proof {
                    assert(self.keys() =~= old_keys.remove(i as int));
                    assert(self.values() =~= old_values.remove(i as int));
                }
                Some(e.1)
            },
            None => None,
        }
    }

    /// Takes every entry out of the map.
    pub fn clear(&mut self)
        ensures
            final(self).keys() == Seq::<Seq<char>>::empty(),
            final(self).values() == Seq::<V>::empty(),
    {
        let mut entries: Vec<(String, V)> = Vec::new();
        core::mem::swap(&mut self.entries, &mut entries);
        proof {
            assert(self.keys() =~= Seq::<Seq<char>>::empty());
            assert(self.values() =~= Seq::<V>::empty());
        }
    }
}

} // verus!
