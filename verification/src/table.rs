//! A small map from text keys to records, in the order of first insertion.

use vstd::prelude::*;
use vstd::utf8::encode_utf8_decode_utf8;
use vstd::string::StringSliceAdditionalSpecFns;

verus! {

/// Whether two strings hold the same characters.
pub fn same_text(a: &str, b: &str) -> (same: bool)
    ensures
        same <==> a@ == b@,
{
    let x = a.as_bytes();
    let y = b.as_bytes();
    proof {
        encode_utf8_decode_utf8(a@);
        encode_utf8_decode_utf8(b@);
    }
    if x.len() != y.len() {
        return false;
    }
    let mut i: usize = 0;
    while i < x.len()
        invariant
            i <= x.len(),
            x.len() == y.len(),
            x@ == a.spec_bytes(),
            y@ == b.spec_bytes(),
            forall|j: int| 0 <= j < i ==> x@[j] == y@[j],
        decreases x.len() - i,
    {
        if x[i] != y[i] {
            return false;
        }
        i = i + 1;
    }
    assert(x@ =~= y@);
    true
}

/// The characters of each string of a sequence.
pub open spec fn texts(strings: Seq<String>) -> Seq<Seq<char>> {
    Seq::new(strings.len(), |i: int| strings[i]@)
}

/// The sequence without its repeats: each value once, at the place of its first occurrence.
pub open spec fn first_occurrences(keys: Seq<Seq<char>>) -> Seq<Seq<char>>
    decreases keys.len(),
{
    if keys.len() == 0 {
        keys
    } else {
        let front = first_occurrences(keys.drop_last());
        if front.contains(keys.last()) {
            front
        } else {
            front.push(keys.last())
        }
    }
}

/// The keys once `key` is among them: unchanged where it already is, else with `key` last.
pub open spec fn with_key(keys: Seq<Seq<char>>, key: Seq<char>) -> Seq<Seq<char>> {
    if keys.contains(key) {
        keys
    } else {
        keys.push(key)
    }
}

/// The map that binds each key of `keys` to the record at its position in `values`.
pub open spec fn bindings<V>(keys: Seq<Seq<char>>, values: Seq<V>) -> Map<Seq<char>, V> {
    Map::new(|key: Seq<char>| keys.contains(key), |key: Seq<char>| values[keys.index_of(key)])
}

/// Replacing the record at a position rebinds the key at that position, and no other.
pub proof fn lemma_bindings_update<V>(keys: Seq<Seq<char>>, values: Seq<V>, i: int, value: V)
    requires
        keys.no_duplicates(),
        keys.len() == values.len(),
        0 <= i < keys.len(),
    ensures
        bindings(keys, values.update(i, value)) == bindings(keys, values).insert(keys[i], value),
{
    let after = bindings(keys, values.update(i, value));
    let expected = bindings(keys, values).insert(keys[i], value);
    assert forall|k: Seq<char>|
        after.dom().contains(k) implies #[trigger] after[k] == expected[k] by {
        let j = keys.index_of(k);
        assert(keys[j] == k);
    }
    assert(after =~= expected);
}

/// Appending a key that is not held, with its record, binds that key and keeps the rest.
pub proof fn lemma_bindings_push<V>(keys: Seq<Seq<char>>, values: Seq<V>, key: Seq<char>, value: V)
    requires
        keys.no_duplicates(),
        keys.len() == values.len(),
        !keys.contains(key),
    ensures
        keys.push(key).no_duplicates(),
        bindings(keys.push(key), values.push(value)) == bindings(keys, values).insert(key, value),
{
    let n = keys.len() as int;
    let after = bindings(keys.push(key), values.push(value));
    let expected = bindings(keys, values).insert(key, value);
    assert(keys.push(key)[n] == key);
    assert forall|k: Seq<char>|
        after.dom().contains(k) implies expected.dom().contains(k)
        && (#[trigger] after[k]) == expected[k] by {
        let j = keys.push(key).index_of(k);
        assert(keys.push(key)[j] == k);
        if j < n {
            assert(keys[j] == k);
            let j2 = keys.index_of(k);
            assert(keys.push(key)[j2] == k);
        }
    }
    assert forall|k: Seq<char>| expected.dom().contains(k) implies after.dom().contains(k) by {
        if k != key {
            let j = keys.index_of(k);
            assert(keys.push(key)[j] == k);
        }
    }
    assert(after =~= expected);
}

/// The keys that are bound are the keys of the sequence, and there are finitely many.
pub proof fn lemma_bindings_dom<V>(keys: Seq<Seq<char>>, values: Seq<V>)
    ensures
        bindings(keys, values).dom() == keys.to_set(),
        bindings(keys, values).dom().finite(),
{
    assert(bindings(keys, values).dom() =~= keys.to_set());
    vstd::seq_lib::seq_to_set_is_finite(keys);
}

#[derive(Debug, PartialEq, Eq)]
struct Entry<V> {
    key: String,
    value: V,
}

/// A map from text keys to records. No key occurs twice, and the keys keep
/// the order in which they were first inserted.
#[derive(Debug, PartialEq, Eq)]
pub struct Table<V> {
    entries: Vec<Entry<V>>,
}

impl<V> View for Table<V> {
    type V = Map<Seq<char>, V>;

    /// The table as a map: each key of `keys` is bound to the record at its position.
    open spec fn view(&self) -> Map<Seq<char>, V> {
        bindings(self.keys(), self.values())
    }
}

impl<V: Clone> Clone for Table<V> {
    /// A table with the same keys in the same order, each bound to a clone of its record.
    fn clone(&self) -> (copy: Self)
        ensures
            copy.keys() == self.keys(),
            copy.well_formed(),
            copy@.dom() == self@.dom(),
            forall|key: Seq<char>| #[trigger]
                self@.dom().contains(key) ==> call_ensures(V::clone, (&self@[key],), copy@[key]),
    {
        proof {
            use_type_invariant(self);
        }
        let mut entries: Vec<Entry<V>> = Vec::new();
        let mut i: usize = 0;
        while i < self.entries.len()
            invariant
                i <= self.entries@.len(),
                entries@.len() == i,
                forall|j: int|
                    0 <= j < i ==> (#[trigger] entries@[j]).key@ == self.entries@[j].key@,
                forall|j: int|
                    0 <= j < i ==> call_ensures(
                        V::clone,
                        (&self.entries@[j].value,),
                        (#[trigger] entries@[j]).value,
                    ),
            decreases self.entries@.len() - i,
        {
            let entry = &self.entries[i];
            entries.push(Entry { key: entry.key.clone(), value: entry.value.clone() });
            i = i + 1;
        }
        proof {
            let keys = Seq::new(entries@.len(), |i: int| entries@[i].key@);
            assert(keys =~= self.keys());
        }
        let copy = Table { entries };
        proof {
            assert(copy.keys() =~= self.keys());
            assert(copy@.dom() =~= self@.dom());
            assert forall|key: Seq<char>| #[trigger]
                self@.dom().contains(key) implies call_ensures(
                V::clone,
                (&self@[key],),
                copy@[key],
            ) by {
                let j = self.keys().index_of(key);
                assert(copy.values()[j] == entries@[j].value);
            }
        }
        copy
    }
}

impl<V> Table<V> {
    /// The keys of the table, in the order of first insertion.
    pub closed spec fn keys(&self) -> Seq<Seq<char>> {
        Seq::new(self.entries@.len(), |i: int| self.entries@[i].key@)
    }

    /// The records of the table, each at the position of its key in `keys`.
    pub closed spec fn values(&self) -> Seq<V> {
        Seq::new(self.entries@.len(), |i: int| self.entries@[i].value)
    }

    #[verifier::type_invariant]
    spec fn distinct_keys(&self) -> bool {
        self.keys().no_duplicates()
    }

    /// What every table satisfies: as many records as keys, and no key twice.
    pub open spec fn well_formed(&self) -> bool {
        &&& self.keys().len() == self.values().len()
        &&& self.keys().no_duplicates()
    }

    /// An empty table.
    pub fn new() -> (table: Self)
        ensures
            table.keys() == Seq::<Seq<char>>::empty(),
            table.values() == Seq::<V>::empty(),
            table@ == Map::<Seq<char>, V>::empty(),
    {
        let table = Table { entries: Vec::new() };
        assert(table.keys() =~= Seq::<Seq<char>>::empty());
        assert(table.values() =~= Seq::<V>::empty());
        assert(table@ =~= Map::<Seq<char>, V>::empty());
        table
    }

    /// The number of keys.
    pub fn len(&self) -> (n: usize)
        ensures
            n == self.keys().len(),
            n == self.values().len(),
    {
        self.entries.len()
    }

    /// The position of `key` among the keys, if the table holds it.
    pub fn position(&self, key: &str) -> (found: Option<usize>)
        ensures
            self.well_formed(),
            match found {
                Some(i) => i < self.keys().len() && self.keys()[i as int] == key@,
                None => !self.keys().contains(key@),
            },
    {
        proof {
            use_type_invariant(self);
        }
        let mut i: usize = 0;
        while i < self.entries.len()
            invariant
                i <= self.entries@.len(),
                self.well_formed(),
                forall|j: int| 0 <= j < i ==> self.keys()[j] != key@,
            decreases self.entries@.len() - i,
        {
            if same_text(self.entries[i].key.as_str(), key) {
                return Some(i);
            }
            i = i + 1;
        }
        None
    }

    /// Whether the table holds `key`.
    pub fn contains_key(&self, key: &str) -> (held: bool)
        ensures
            held <==> self@.dom().contains(key@),
    {
        self.position(key).is_some()
    }

    /// The record bound to `key`, if the table holds the key.
    pub fn get(&self, key: &str) -> (found: Option<&V>)
        ensures
            match found {
                Some(value) => self@.dom().contains(key@) && *value == self@[key@],
                None => !self@.dom().contains(key@),
            },
    {
        match self.position(key) {
            Some(i) => {
                let entry = &self.entries[i];
                assert(self.keys().index_of(key@) == i);
                Some(&entry.value)
            },
            None => None,
        }
    }

    /// The key at position `i`, counted in the order of first insertion;
    /// `None` where the table has no such position.
    pub fn key_at(&self, i: usize) -> (key: Option<&String>)
        ensures
            match key {
                Some(key) => i < self.keys().len() && key@ == self.keys()[i as int],
                None => i >= self.keys().len(),
            },
    {
        if i < self.entries.len() {
            Some(&self.entries[i].key)
        } else {
            None
        }
    }

    /// The record at position `i`, counted in the order of first
    /// insertion; `None` where the table has no such position.
    pub fn value_at(&self, i: usize) -> (value: Option<&V>)
        ensures
            match value {
                Some(value) => {
                    &&& i < self.keys().len()
                    &&& *value == self.values()[i as int]
                    &&& *value == self@[self.keys()[i as int]]
                },
                None => i >= self.keys().len(),
            },
    {
        proof {
            use_type_invariant(self);
        }
        if i < self.entries.len() {
            proof {
                assert(self.keys().index_of(self.keys()[i as int]) == i);
            }
            Some(&self.entries[i].value)
        } else {
            None
        }
    }

    /// Binds `key` to `value`. A key that the table holds keeps its
    /// position and gives back its former record; a new key goes last.
    pub fn insert(&mut self, key: String, value: V) -> (former: Option<V>)
        ensures
            final(self).well_formed(),
            final(self)@ == old(self)@.insert(key@, value),
            match former {
                Some(v) => {
                    &&& old(self)@.dom().contains(key@)
                    &&& v == old(self)@[key@]
                    &&& final(self).keys() == old(self).keys()
                },
                None => {
                    &&& !old(self)@.dom().contains(key@)
                    &&& final(self).keys() == old(self).keys().push(key@)
                },
            },
    {
        proof {
            use_type_invariant(&*self);
        }
        let found = self.position(key.as_str());
        // The entries leave the table while they change: the table itself
        // is never seen with a key missing.
        let mut entries: Vec<Entry<V>> = Vec::new();
        core::mem::swap(&mut self.entries, &mut entries);
        assert(self.keys() =~= Seq::<Seq<char>>::empty());
        let former = match found {
            Some(i) => {
                let entry = entries.remove(i);
                entries.insert(i, Entry { key, value });
                Some(entry.value)
            },
            None => {
                entries.push(Entry { key, value });
                None
            },
        };
        proof {
            let keys = Seq::new(entries@.len(), |i: int| entries@[i].key@);
            let values = Seq::new(entries@.len(), |i: int| entries@[i].value);
            match found {
                Some(i) => {
                    assert(old(self).keys().index_of(key@) == i);
                    assert(keys =~= old(self).keys());
                    assert(values =~= old(self).values().update(i as int, value));
                    lemma_bindings_update(old(self).keys(), old(self).values(), i as int, value);
                },
                None => {
                    assert(keys =~= old(self).keys().push(key@));
                    assert(values =~= old(self).values().push(value));
                    lemma_bindings_push(old(self).keys(), old(self).values(), key@, value);
                },
            }
        }
        self.entries = entries;
        former
    }

    /// Passes the record bound to `key` through `change` and binds the key
    /// to what comes back. A key that is not held is first bound to `fresh`,
    /// at the end of the table; a key that is held keeps its position.
    pub fn update<F: FnOnce(V) -> V>(&mut self, key: &str, fresh: V, change: F)
        requires
            call_requires(change, (old(self).get_or(key@, fresh),)),
        ensures
            final(self).well_formed(),
            final(self)@.dom().contains(key@),
            call_ensures(change, (old(self).get_or(key@, fresh),), final(self)@[key@]),
            final(self)@ == old(self)@.insert(key@, final(self)@[key@]),
            final(self).keys() == old(self).keys_with(key@),
            old(self).keys().is_prefix_of(final(self).keys()),
    {
        proof {
            use_type_invariant(&*self);
        }
        let found = self.position(key);
        let mut entries: Vec<Entry<V>> = Vec::new();
        core::mem::swap(&mut self.entries, &mut entries);
        assert(self.keys() =~= Seq::<Seq<char>>::empty());
        let ghost changed: V;
        match found {
            Some(i) => {
                let entry = entries.remove(i);
                proof {
                    assert(old(self).keys().index_of(key@) == i);
                }
                let value = change(entry.value);
                proof {
                    changed = value;
                }
                entries.insert(i, Entry { key: entry.key, value });
            },
            None => {
                let value = change(fresh);
                proof {
                    changed = value;
                }
                entries.push(Entry { key: key.to_owned(), value });
            },
        }
        proof {
            let keys = Seq::new(entries@.len(), |i: int| entries@[i].key@);
            let values = Seq::new(entries@.len(), |i: int| entries@[i].value);
            match found {
                Some(i) => {
                    assert(keys =~= old(self).keys());
                    assert(values =~= old(self).values().update(i as int, changed));
                    lemma_bindings_update(old(self).keys(), old(self).values(), i as int, changed);
                },
                None => {
                    assert(keys =~= old(self).keys().push(key@));
                    assert(values =~= old(self).values().push(changed));
                    lemma_bindings_push(old(self).keys(), old(self).values(), key@, changed);
                },
            }
        }
        self.entries = entries;
    }

    /// The record bound to `key`, or `fresh` where the table does not hold the key.
    pub open spec fn get_or(&self, key: Seq<char>, fresh: V) -> V {
        if self@.dom().contains(key) {
            self@[key]
        } else {
            fresh
        }
    }

    /// The keys of the table once `key` is held: unchanged where it
    /// already is, else with `key` last.
    pub open spec fn keys_with(&self, key: Seq<char>) -> Seq<Seq<char>> {
        with_key(self.keys(), key)
    }

    /// The keys that are bound are those of `keys`, and there are finitely many.
    pub proof fn lemma_dom(&self)
        ensures
            self@.dom() == self.keys().to_set(),
            self@.dom().finite(),
            forall|key: Seq<char>| self@.dom().contains(key) <==> self.keys().contains(key),
    {
        lemma_bindings_dom(self.keys(), self.values());
    }

    /// A copy of the keys, in the order of first insertion.
    pub fn key_list(&self) -> (list: Vec<String>)
        ensures
            texts(list@) == self.keys(),
            self.well_formed(),
    {
        proof {
            use_type_invariant(self);
        }
        let mut list: Vec<String> = Vec::new();
        let mut i: usize = 0;
        while i < self.entries.len()
            invariant
                i <= self.entries@.len(),
                list@.len() == i,
                forall|j: int| 0 <= j < i ==> (#[trigger] list@[j])@ == self.keys()[j],
            decreases self.entries@.len() - i,
        {
            list.push(self.entries[i].key.clone());
            i = i + 1;
        }
        proof {
            assert(texts(list@) =~= self.keys());
        }
        list
    }
}

} // verus!
