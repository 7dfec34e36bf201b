//! Collections keyed by identifiers.
//!
//! `KeySet` and `KeyMap` keep their keys in the order in which they first came
//! in, so that walking one visits the same keys in the same order whenever it
//! was built from the same input. No key occurs twice.

use crate::text::same_text;
use vstd::pervasive::cloned;
use vstd::prelude::*;

verus! {

/// The characters of each string of `keys`.
pub open spec fn texts(keys: Seq<String>) -> Seq<Seq<char>> {
    Seq::new(keys.len(), |i: int| keys[i]@)
}

/// A set of identifiers that remembers the order of arrival.
#[derive(Debug)]
pub struct KeySet {
    items: Vec<String>,
}

impl View for KeySet {
    type V = Set<Seq<char>>;

    open spec fn view(&self) -> Set<Seq<char>> {
        self.order().to_set()
    }
}

impl KeySet {
    #[verifier::type_invariant]
    spec fn no_member_twice(&self) -> bool {
        texts(self.items@).no_duplicates()
    }

    /// The members, each once, in the order of arrival.
    pub closed spec fn order(&self) -> Seq<Seq<char>> {
        texts(self.items@)
    }

    /// A set without members.
    pub fn new() -> (r: Self)
        ensures
            r.order() == Seq::<Seq<char>>::empty(),
            r@ == Set::<Seq<char>>::empty(),
    {
        let r = KeySet { items: Vec::new() };
        assert(r.order() =~= Seq::<Seq<char>>::empty());
        assert(r@ =~= Set::<Seq<char>>::empty());
        r
    }

    /// The number of members, which is the length of the order of arrival:
    /// no member is in it twice.
    pub fn len(&self) -> (n: usize)
        ensures
            n == self.order().len(),
            n == self@.len(),
            self.order().no_duplicates(),
    {
        proof {
            use_type_invariant(self);
            self.order().unique_seq_to_set();
        }
        self.items.len()
    }

    /// The place of `key` in the order of arrival, if it is a member.
    pub fn position(&self, key: &str) -> (r: Option<usize>)
        ensures
            match r {
                Some(i) => i < self.order().len() && self.order()[i as int] == key@,
                None => !self.order().contains(key@),
            },
    {
        let n: usize = self.items.len();
        let mut i: usize = 0;
        while i < n
            invariant
                i <= n,
                n == self.items@.len(),
                forall|k: int| 0 <= k < i ==> self.items@[k]@ != key@,
            decreases n - i,
        {
            if same_text(self.items[i].as_str(), key) {
                return Some(i);
            }
            i += 1;
        }
        None
    }

    /// Whether `key` is a member.
    pub fn contains(&self, key: &str) -> (r: bool)
        ensures
            r == self@.contains(key@),
    {
        self.position(key).is_some()
    }

    /// The member equal to `key`, if there is one.
    pub fn get(&self, key: &str) -> (r: Option<&String>)
        ensures
            r is Some <==> self@.contains(key@),
            r is Some ==> r->Some_0@ == key@,
    {
        match self.position(key) {
            Some(i) => Some(&self.items[i]),
            None => None,
        }
    }

    /// The member at place `i` of the order of arrival.
    pub fn item(&self, i: usize) -> (r: &String)
        requires
            i < self.order().len(),
        ensures
            r@ == self.order()[i as int],
    {
        &self.items[i]
    }

    /// Adds `key` unless it is a member already; says whether it was added.
    pub fn insert(&mut self, key: String) -> (fresh: bool)
        ensures
            fresh == !old(self)@.contains(key@),
            final(self).order() == if fresh {
                old(self).order().push(key@)
            } else {
                old(self).order()
            },
            final(self)@ == old(self)@.insert(key@),
    {
        proof {
            use_type_invariant(&*self);
        }
        if self.position(key.as_str()).is_some() {
            assert(self@.insert(key@) =~= self@);
            return false;
        }
        let ghost before = self.order();
        let mut items: Vec<String> = Vec::new();
        std::mem::swap(&mut items, &mut self.items);
        items.push(key);
        proof {
            assert(texts(items@) =~= before.push(key@));
            assert(texts(items@).no_duplicates());
            before.lemma_push_to_set_commute(key@);
        }
        self.items = items;
        true
    }
}

impl Clone for KeySet {
    /// A set with the same members in the same order.
    fn clone(&self) -> (r: Self)
        ensures
            r.order() == self.order(),
            r@ == self@,
    {
        proof {
            use_type_invariant(self);
        }
        let n: usize = self.items.len();
        let mut items: Vec<String> = Vec::new();
        let mut i: usize = 0;
        while i < n
            invariant
                i <= n,
                n == self.items@.len(),
                items@.len() == i,
                texts(items@) == texts(self.items@).take(i as int),
            decreases n - i,
        {
            let ghost before = items@;
            let key = self.items[i].clone();
            items.push(key);
            proof {
                assert(key@ == self.items@[i as int]@);
                assert forall|k: int| 0 <= k < i + 1 implies texts(items@)[k] == texts(
                    self.items@,
                ).take(i + 1)[k] by {
                    if k < i {
                        assert(texts(before)[k] == texts(self.items@).take(i as int)[k]);
                    }
                }
                assert(texts(items@) =~= texts(self.items@).take(i + 1));
            }
            i += 1;
        }
        proof {
            assert(texts(self.items@).take(n as int) =~= texts(self.items@));
        }
        KeySet { items }
    }
}

/// The characters of the key of each entry.
pub open spec fn entry_keys<V>(entries: Seq<(String, V)>) -> Seq<Seq<char>> {
    Seq::new(entries.len(), |i: int| entries[i].0@)
}

/// The value of each entry.
pub open spec fn entry_values<V>(entries: Seq<(String, V)>) -> Seq<V> {
    Seq::new(entries.len(), |i: int| entries[i].1)
}

/// A map from identifiers to values that remembers the order in which its keys
/// arrived.
#[derive(Debug)]
pub struct KeyMap<V> {
    entries: Vec<(String, V)>,
}

impl<V> View for KeyMap<V> {
    type V = Map<Seq<char>, V>;

    open spec fn view(&self) -> Map<Seq<char>, V> {
        Map::new(
            |k: Seq<char>| self.order().contains(k),
            |k: Seq<char>| self.values()[self.order().index_of(k)],
        )
    }
}

impl<V> KeyMap<V> {
    #[verifier::type_invariant]
    spec fn no_key_twice(&self) -> bool {
        self.order().no_duplicates()
    }

    /// The keys, each once, in the order of arrival.
    pub closed spec fn order(&self) -> Seq<Seq<char>> {
        entry_keys(self.entries@)
    }

    /// The values, each at the place of its key in `order`.
    pub closed spec fn values(&self) -> Seq<V> {
        entry_values(self.entries@)
    }

    /// A map without keys.
    pub fn new() -> (r: Self)
        ensures
            r.order() == Seq::<Seq<char>>::empty(),
            r.values() == Seq::<V>::empty(),
            r@ == Map::<Seq<char>, V>::empty(),
    {
        let r = KeyMap { entries: Vec::new() };
        assert(r.order() =~= Seq::<Seq<char>>::empty());
        assert(r.values() =~= Seq::<V>::empty());
        assert(r@ =~= Map::<Seq<char>, V>::empty());
        r
    }

    /// The number of keys, which is the length of the order of arrival: no
    /// key is in it twice, and each has its value at its own place.
    pub fn len(&self) -> (n: usize)
        ensures
            n == self.order().len(),
            n == self.values().len(),
            self.order().no_duplicates(),
            forall|i: int| 0 <= i < n ==> self@[#[trigger] self.order()[i]] == self.values()[i],
    {
        proof {
            use_type_invariant(self);
            assert forall|i: int| 0 <= i < self.order().len() implies self@[#[trigger] self.order()[
                i
            ]] == self.values()[i] by {
                let k = self.order()[i];
                let j = self.order().index_of(k);
                assert(self.order()[j] == k);
            }
        }
        self.entries.len()
    }

    /// The place of `key` in the order of arrival, if it is a key of the map.
    pub fn position(&self, key: &str) -> (r: Option<usize>)
        ensures
            match r {
                Some(i) => i < self.order().len() && self.order()[i as int] == key@,
                None => !self.order().contains(key@),
            },
    {
        let n: usize = self.entries.len();
        let mut i: usize = 0;
        while i < n
            invariant
                i <= n,
                n == self.entries@.len(),
                forall|k: int| 0 <= k < i ==> self.entries@[k].0@ != key@,
            decreases n - i,
        {
            if same_text(self.entries[i].0.as_str(), key) {
                return Some(i);
            }
            i += 1;
        }
        None
    }

    /// Whether the map holds a value for `key`.
    pub fn contains_key(&self, key: &str) -> (r: bool)
        ensures
            r == self@.contains_key(key@),
    {
        self.position(key).is_some()
    }

    /// The value stored for `key`, if there is one.
    pub fn get(&self, key: &str) -> (r: Option<&V>)
        ensures
            r is Some <==> self@.contains_key(key@),
            r is Some ==> *r->Some_0 == self@[key@],
    {
        proof {
            use_type_invariant(self);
        }
        match self.position(key) {
            Some(i) => {
                proof {
                    let j = self.order().index_of(key@);
                    assert(self.order()[j] == key@);
                }
                Some(&self.entries[i].1)
            },
            None => None,
        }
    }

    /// The key at place `i` of the order of arrival.
    pub fn key_at(&self, i: usize) -> (r: &String)
        requires
            i < self.order().len(),
        ensures
            r@ == self.order()[i as int],
    {
        &self.entries[i].0
    }

    /// The value of the key at place `i` of the order of arrival.
    pub fn value_at(&self, i: usize) -> (r: &V)
        requires
            i < self.order().len(),
        ensures
            *r == self.values()[i as int],
            *r == self@[self.order()[i as int]],
    {
        proof {
            use_type_invariant(self);
            let k = self.order()[i as int];
            let j = self.order().index_of(k);
            assert(self.order()[j] == k);
        }
        &self.entries[i].1
    }

    /// Stores `value` for `key`. A key that is new goes to the end of the
    /// order of arrival; one that the map holds already keeps its place.
    pub fn insert(&mut self, key: String, value: V)
        ensures
            final(self)@ == old(self)@.insert(key@, value),
            final(self).order() == if old(self)@.contains_key(key@) {
                old(self).order()
            } else {
                old(self).order().push(key@)
            },
    {
        proof {
            use_type_invariant(&*self);
        }
        let found = self.position(key.as_str());
        let ghost before = *self;
        let ghost k = key@;
        let mut entries: Vec<(String, V)> = Vec::new();
        std::mem::swap(&mut entries, &mut self.entries);
        match found {
            Some(i) => {
                entries.set(i, (key, value));
            },
            None => {
                entries.push((key, value));
            },
        }
        proof {
            if found is Some {
                let i = found->Some_0 as int;
                assert(entry_keys(entries@) =~= before.order());
                assert(entry_values(entries@) =~= before.values().update(i, value));
            } else {
                assert(entry_keys(entries@) =~= before.order().push(k));
                assert(entry_values(entries@) =~= before.values().push(value));
            }
            assert(entry_keys(entries@).no_duplicates());
        }
        self.entries = entries;
        proof {
            let after = *self;
            assert forall|a: Seq<char>| #[trigger]
                after@.contains_key(a) == before@.insert(k, value).contains_key(a) by {
                if a == k {
                    if found is Some {
                        assert(after.order()[found->Some_0 as int] == k);
                    } else {
                        assert(after.order()[before.order().len() as int] == k);
                    }
                } else if before.order().contains(a) {
                    let j = before.order().index_of(a);
                    assert(after.order()[j] == a);
                }
            }
            assert forall|a: Seq<char>| #[trigger] after@.contains_key(a) implies after@[a]
                == before@.insert(k, value)[a] by {
                let j = after.order().index_of(a);
                assert(after.order()[j] == a);
                if a != k {
                    let j0 = before.order().index_of(a);
                    assert(before.order()[j] == a);
                    assert(before.order()[j0] == a);
                } else if found is Some {
                    assert(after.order()[found->Some_0 as int] == k);
                } else {
                    assert(after.order()[before.order().len() as int] == k);
                }
            }
            assert(after@ =~= before@.insert(k, value));
        }
    }
}

impl<V: Clone> Clone for KeyMap<V> {
    /// A map with the same keys in the same order, each with a clone of its
    /// value.
    fn clone(&self) -> (r: Self)
        ensures
            r.order() == self.order(),
            r.values().len() == self.values().len(),
            forall|i: int|
                0 <= i < self.values().len() ==> cloned::<V>(
                    #[trigger] self.values()[i],
                    r.values()[i],
                ),
    {
        proof {
            use_type_invariant(self);
        }
        let n: usize = self.entries.len();
        let mut entries: Vec<(String, V)> = Vec::new();
        let mut i: usize = 0;
        while i < n
            invariant
                i <= n,
                n == self.entries@.len(),
                entries@.len() == i,
                entry_keys(entries@) == entry_keys(self.entries@).take(i as int),
                forall|k: int|
                    0 <= k < i ==> cloned::<V>((#[trigger] self.entries@[k]).1, entries@[k].1),
            decreases n - i,
        {
            let ghost before = entries@;
            let key = self.entries[i].0.clone();
            let value = self.entries[i].1.clone();
            entries.push((key, value));
            proof {
                assert(key@ == self.entries@[i as int].0@);
                assert forall|k: int| 0 <= k < i + 1 implies entry_keys(entries@)[k] == entry_keys(
                    self.entries@,
                ).take(i + 1)[k] by {
                    if k < i {
                        assert(entry_keys(before)[k] == entry_keys(self.entries@).take(i as int)[k]);
                    }
                }
                assert(entry_keys(entries@) =~= entry_keys(self.entries@).take(i + 1));
            }
            i += 1;
        }
        proof {
            assert(entry_keys(self.entries@).take(n as int) =~= entry_keys(self.entries@));
        }
        KeyMap { entries }
    }
}

} // verus!
