//! Maps and sets keyed by text, kept in the order in which keys arrived.
//!
//! A key is compared by its characters. The mathematical value of a map is a
//! `Map` from `Seq<char>`; that of a set is a `Set` of `Seq<char>`. The order
//! of arrival is kept so that walking a map or a set is deterministic.
//!
//! The hash map and the hash set of the standard library are not used: what
//! `vstd` states of them holds only for keys whose hashing it models, and
//! `String` is not among them; its own map keyed by text can neither be
//! walked nor changed in place.

use vstd::prelude::*;

verus! {

/// A map from text to `V`, in order of first insertion.
pub struct StringMap<V> {
    keys: Vec<String>,
    values: Vec<V>,
}

impl<V> StringMap<V> {
    /// The keys, in order of first insertion.
    pub closed spec fn key_seq(&self) -> Seq<Seq<char>> {
        self.keys.deep_view()
    }

    /// The values, each at the index of its key.
    pub closed spec fn value_seq(&self) -> Seq<V> {
        self.values@
    }

    /// Every key has one value and occurs once.
    pub open spec fn wf(&self) -> bool {
        &&& self.key_seq().len() == self.value_seq().len()
        &&& self.key_seq().no_duplicates()
    }

    /// Whether `key` is a key of the map.
    pub open spec fn has(&self, key: Seq<char>) -> bool {
        self.key_seq().contains(key)
    }

    /// The index of `key` among the keys.
    pub open spec fn slot(&self, key: Seq<char>) -> int {
        self.key_seq().index_of(key)
    }

    /// The value stored under `key`.
    pub open spec fn value_of(&self, key: Seq<char>) -> V {
        self.value_seq()[self.slot(key)]
    }

    /// The map as a mathematical map from keys to stored values.
    pub open spec fn as_map(&self) -> Map<Seq<char>, V> {
        Map::new(|k: Seq<char>| self.has(k), |k: Seq<char>| self.value_of(k))
    }

    /// In a well-formed map, the key at index `i` has slot `i`.
    pub proof fn lemma_slot(&self, i: int)
        requires
            self.wf(),
            0 <= i < self.key_seq().len(),
        ensures
            self.has(self.key_seq()[i]),
            self.slot(self.key_seq()[i]) == i,
            self.value_of(self.key_seq()[i]) == self.value_seq()[i],
    {
        let k = self.key_seq()[i];
        assert(self.key_seq().contains(k));
        let j = self.slot(k);
        assert(0 <= j < self.key_seq().len() && self.key_seq()[j] == k);
    }

    /// A key of the map stands at its slot.
    pub proof fn lemma_has(&self, key: Seq<char>)
        requires
            self.has(key),
        ensures
            0 <= self.slot(key) < self.key_seq().len(),
            self.key_seq()[self.slot(key)] == key,
    {
    }

    /// An empty map.
    pub fn new() -> (m: Self)
        ensures
            m.wf(),
            m.key_seq() == Seq::<Seq<char>>::empty(),
            m.value_seq() == Seq::<V>::empty(),
            m.as_map() == Map::<Seq<char>, V>::empty(),
    {
        let m = StringMap { keys: Vec::new(), values: Vec::new() };
        proof {
            assert(m.key_seq() =~= Seq::<Seq<char>>::empty());
            assert(m.as_map() =~= Map::<Seq<char>, V>::empty());
        }
        m
    }

    /// The number of keys.
    pub fn len(&self) -> (n: usize)
        requires
            self.wf(),
        ensures
            n == self.key_seq().len(),
            n == self.value_seq().len(),
    {
        self.keys.len()
    }

    /// Whether the map has no key.
    pub fn is_empty(&self) -> (r: bool)
        requires
            self.wf(),
        ensures
            r == (self.key_seq().len() == 0),
    {
        self.keys.len() == 0
    }

    /// The index of `key` among the keys, if it is one.
    pub fn position(&self, key: &str) -> (r: Option<usize>)
        requires
            self.wf(),
        ensures
            match r {
                Some(i) => i < self.key_seq().len() && self.key_seq()[i as int] == key@
                    && self.has(key@) && self.slot(key@) == i,
                None => !self.has(key@),
            },
    {
        let mut i: usize = 0;
        while i < self.keys.len()
            invariant
                i <= self.keys.len(),
                self.wf(),
                forall|j: int| 0 <= j < i ==> #[trigger] self.key_seq()[j] != key@,
            decreases self.keys.len() - i,
        {
            if *self.keys[i].as_str() == *key {
                proof {
                    assert(self.key_seq()[i as int] == key@);
                    self.lemma_slot(i as int);
                }
                return Some(i);
            }
            proof {
                assert(self.key_seq()[i as int] == self.keys[i as int]@);
            }
            i += 1;
        }
        None
    }

    /// Whether `key` is a key of the map.
    pub fn contains_key(&self, key: &str) -> (r: bool)
        requires
            self.wf(),
        ensures
            r == self.has(key@),
    {
        self.position(key).is_some()
    }

    /// The value stored under `key`, if it is a key.
    pub fn get(&self, key: &str) -> (r: Option<&V>)
        requires
            self.wf(),
        ensures
            match r {
                Some(v) => self.has(key@) && *v == self.value_of(key@),
                None => !self.has(key@),
            },
    {
        match self.position(key) {
            Some(i) => Some(&self.values[i]),
            None => None,
        }
    }

    /// The key at index `i`.
    pub fn key_at(&self, i: usize) -> (k: &String)
        requires
            self.wf(),
            i < self.key_seq().len(),
        ensures
            k@ == self.key_seq()[i as int],
    {
        &self.keys[i]
    }

    /// The value at index `i`.
    pub fn value_at(&self, i: usize) -> (v: &V)
        requires
            self.wf(),
            i < self.value_seq().len(),
        ensures
            *v == self.value_seq()[i as int],
    {
        &self.values[i]
    }

    /// The value at index `i`, to be changed in place.
    pub fn value_mut(&mut self, i: usize) -> (v: &mut V)
        requires
            old(self).wf(),
            i < old(self).value_seq().len(),
        ensures
            *v == old(self).value_seq()[i as int],
            final(self).key_seq() == old(self).key_seq(),
            final(self).value_seq() == old(self).value_seq().update(i as int, *final(v)),
            final(self).wf(),
    {
        &mut self.values[i]
    }

    /// Stores `value` under `key`: in the place of the value that was there,
    /// or with `key` as the last key. Returns the index of `key`.
    pub fn insert(&mut self, key: String, value: V) -> (i: usize)
        requires
            old(self).wf(),
        ensures
            final(self).wf(),
            final(self).as_map() == old(self).as_map().insert(key@, value),
            i == final(self).slot(key@),
            i < final(self).key_seq().len(),
            final(self).key_seq()[i as int] == key@,
            final(self).value_seq()[i as int] == value,
            old(self).has(key@) ==> {
                &&& i == old(self).slot(key@)
                &&& final(self).key_seq() == old(self).key_seq()
                &&& final(self).value_seq() == old(self).value_seq().update(i as int, value)
            },
            !old(self).has(key@) ==> {
                &&& final(self).key_seq() == old(self).key_seq().push(key@)
                &&& final(self).value_seq() == old(self).value_seq().push(value)
            },
    {
        match self.position(key.as_str()) {
            Some(i) => {
                self.values.set(i, value);
                proof {
                    final(self).lemma_slot(i as int);
                    old(self).lemma_after_update(*final(self), i as int, value);
                }
                i
            },
            None => {
                let i = self.keys.len();
                let ghost k = key@;
                self.keys.push(key);
                self.values.push(value);
                proof {
                    assert(final(self).key_seq() =~= old(self).key_seq().push(k));
                    old(self).lemma_after_push(*final(self), k, value);
                    final(self).lemma_slot(i as int);
                }
                i
            },
        }
    }

    /// A map whose value at one index was replaced maps that key to the new
    /// value and every other key as before.
    pub proof fn lemma_after_update(&self, after: Self, i: int, value: V)
        requires
            self.wf(),
            0 <= i < self.key_seq().len(),
            after.key_seq() == self.key_seq(),
            after.value_seq() == self.value_seq().update(i, value),
        ensures
            after.wf(),
            after.as_map() == self.as_map().insert(self.key_seq()[i], value),
    {
        let key = self.key_seq()[i];
        self.lemma_slot(i);
        after.lemma_slot(i);
        assert forall|k: Seq<char>| after.as_map().dom().contains(k) implies #[trigger] after.as_map()[k]
            == self.as_map().insert(key, value)[k] by {
            if k != key {
                let j = self.slot(k);
                self.lemma_slot(j);
            }
        }
        assert(after.as_map() =~= self.as_map().insert(key, value));
    }

    /// A map that gained one key at its end maps that key to its value and
    /// every other key as before.
    pub proof fn lemma_after_push(&self, after: Self, key: Seq<char>, value: V)
        requires
            self.wf(),
            !self.has(key),
            after.key_seq() == self.key_seq().push(key),
            after.value_seq() == self.value_seq().push(value),
        ensures
            after.wf(),
            after.as_map() == self.as_map().insert(key, value),
    {
        let n = self.key_seq().len() as int;
        assert forall|a: int, b: int|
            0 <= a < after.key_seq().len() && 0 <= b < after.key_seq().len() && a != b implies after.key_seq()[a]
            != after.key_seq()[b] by {
            if a < n {
                assert(self.key_seq().contains(self.key_seq()[a]));
            }
            if b < n {
                assert(self.key_seq().contains(self.key_seq()[b]));
            }
        }
        after.lemma_slot(n);
        assert forall|k: Seq<char>| after.has(k) <==> (self.has(k) || k == key) by {
            if self.has(k) {
                let j = self.slot(k);
                assert(after.key_seq()[j] == k);
            }
            if after.has(k) && k != key {
                let j = after.slot(k);
                assert(self.key_seq()[j] == k);
            }
        }
        assert forall|k: Seq<char>| after.as_map().dom().contains(k) implies #[trigger] after.as_map()[k]
            == self.as_map().insert(key, value)[k] by {
            if k != key {
                let j = self.slot(k);
                self.lemma_slot(j);
                after.lemma_slot(j);
            }
        }
        assert(after.as_map() =~= self.as_map().insert(key, value));
    }
}

/// A map with each value replaced by its mathematical value.
pub open spec fn deep_map<V: DeepView>(m: Map<Seq<char>, V>) -> Map<Seq<char>, V::V> {
    Map::new(|k: Seq<char>| m.dom().contains(k), |k: Seq<char>| m[k].deep_view())
}

/// The list stored under `key`; the empty list where `key` is no key.
pub open spec fn list_of<T>(m: Map<Seq<char>, Seq<T>>, key: Seq<char>) -> Seq<T> {
    if m.dom().contains(key) {
        m[key]
    } else {
        Seq::empty()
    }
}

/// Storing a value stores its mathematical value.
pub proof fn lemma_deep_map_insert<V: DeepView>(m: Map<Seq<char>, V>, key: Seq<char>, value: V)
    ensures
        deep_map(m.insert(key, value)) == deep_map(m).insert(key, value.deep_view()),
{
    assert(deep_map(m.insert(key, value)) =~= deep_map(m).insert(key, value.deep_view()));
}

impl<V: DeepView> StringMap<V> {
    /// The mathematical values of the stored values, each at the index of its
    /// key.
    pub open spec fn deep_values(&self) -> Seq<V::V> {
        Seq::new(self.value_seq().len(), |i: int| self.value_seq()[i].deep_view())
    }
}

impl<V: DeepView> DeepView for StringMap<V> {
    type V = Map<Seq<char>, V::V>;

    open spec fn deep_view(&self) -> Map<Seq<char>, V::V> {
        deep_map(self.as_map())
    }
}

impl<T: DeepView> StringMap<Vec<T>> {
    /// Appends `item` to the list stored under `key`, which is empty where
    /// `key` was no key.
    pub fn append(&mut self, key: &str, item: T)
        requires
            old(self).wf(),
        ensures
            final(self).wf(),
            final(self).deep_view() == old(self).deep_view().insert(
                key@,
                list_of(old(self).deep_view(), key@).push(item.deep_view()),
            ),
            old(self).has(key@) ==> final(self).key_seq() == old(self).key_seq(),
            !old(self).has(key@) ==> final(self).key_seq() == old(self).key_seq().push(key@),
    {
        let ghost before = list_of(old(self).deep_view(), key@);
        let ghost added = item.deep_view();
        match self.position(key) {
            Some(i) => {
                proof {
                    old(self).lemma_slot(i as int);
                }
                let list = self.value_mut(i);
                list.push(item);
                proof {
                    let now = final(self).value_seq()[i as int];
                    assert(now.deep_view() =~= before.push(added));
                    old(self).lemma_after_update(*final(self), i as int, now);
                    lemma_deep_map_insert(old(self).as_map(), key@, now);
                }
            },
            None => {
                let mut list: Vec<T> = Vec::new();
                list.push(item);
                proof {
                    assert(list.deep_view() =~= before.push(added));
                    lemma_deep_map_insert(old(self).as_map(), key@, list);
                }
                let owned = key.to_owned();
                self.insert(owned, list);
            },
        }
    }
}

/// The map stored under `key`; the empty map where `key` is no key.
pub open spec fn map_of<T>(m: Map<Seq<char>, Map<Seq<char>, T>>, key: Seq<char>) -> Map<
    Seq<char>,
    T,
> {
    if m.dom().contains(key) {
        m[key]
    } else {
        Map::empty()
    }
}

impl<T: DeepView> StringMap<StringMap<Vec<T>>> {
    /// The map and every map stored in it are well formed.
    pub open spec fn nested_wf(&self) -> bool {
        &&& self.wf()
        &&& forall|i: int| 0 <= i < self.value_seq().len() ==> (#[trigger] self.value_seq()[i]).wf()
    }

    /// Appends `item` to the list stored under `inner` in the map stored
    /// under `outer`; a missing map or list counts as empty.
    pub fn append_nested(&mut self, outer: &str, inner: &str, item: T)
        requires
            old(self).nested_wf(),
        ensures
            final(self).nested_wf(),
            final(self).deep_view() == old(self).deep_view().insert(
                outer@,
                map_of(old(self).deep_view(), outer@).insert(
                    inner@,
                    list_of(map_of(old(self).deep_view(), outer@), inner@).push(item.deep_view()),
                ),
            ),
    {
        match self.position(outer) {
            Some(i) => {
                proof {
                    old(self).lemma_slot(i as int);
                }
                let lists = self.value_mut(i);
                lists.append(inner, item);
                proof {
                    let now = final(self).value_seq()[i as int];
                    old(self).lemma_after_update(*final(self), i as int, now);
                    lemma_deep_map_insert(old(self).as_map(), outer@, now);
                }
            },
            None => {
                let mut lists: StringMap<Vec<T>> = StringMap::new();
                proof {
                    assert(lists.deep_view() =~= Map::<Seq<char>, Seq<T::V>>::empty());
                }
                lists.append(inner, item);
                proof {
                    lemma_deep_map_insert(old(self).as_map(), outer@, lists);
                }
                let owned = outer.to_owned();
                self.insert(owned, lists);
            },
        }
    }
}

/// A set of texts, in order of first insertion.
pub struct StringSet {
    items: Vec<String>,
}

impl View for StringSet {
    type V = Set<Seq<char>>;

    open spec fn view(&self) -> Set<Seq<char>> {
        self.item_seq().to_set()
    }
}

impl StringSet {
    /// The members, in order of first insertion.
    pub closed spec fn item_seq(&self) -> Seq<Seq<char>> {
        self.items.deep_view()
    }

    /// No member occurs twice.
    pub open spec fn wf(&self) -> bool {
        self.item_seq().no_duplicates()
    }

    /// An empty set.
    pub fn new() -> (s: Self)
        ensures
            s.wf(),
            s.item_seq() == Seq::<Seq<char>>::empty(),
            s@ == Set::<Seq<char>>::empty(),
    {
        let s = StringSet { items: Vec::new() };
        proof {
            assert(s.item_seq() =~= Seq::<Seq<char>>::empty());
            assert(s@ =~= Set::<Seq<char>>::empty());
        }
        s
    }

    /// The number of members.
    pub fn len(&self) -> (n: usize)
        ensures
            n == self.item_seq().len(),
    {
        self.items.len()
    }

    /// Whether the set has no member.
    pub fn is_empty(&self) -> (r: bool)
        ensures
            r == (self.item_seq().len() == 0),
    {
        self.items.len() == 0
    }

    /// Whether `item` is a member.
    pub fn contains(&self, item: &str) -> (r: bool)
        ensures
            r == self@.contains(item@),
            r == self.item_seq().contains(item@),
    {
        let mut i: usize = 0;
        while i < self.items.len()
            invariant
                i <= self.items.len(),
                forall|j: int| 0 <= j < i ==> #[trigger] self.item_seq()[j] != item@,
            decreases self.items.len() - i,
        {
            if *self.items[i].as_str() == *item {
                proof {
                    assert(self.item_seq()[i as int] == item@);
                }
                return true;
            }
            proof {
                assert(self.item_seq()[i as int] == self.items[i as int]@);
            }
            i += 1;
        }
        false
    }

    /// The member at index `i`.
    pub fn item_at(&self, i: usize) -> (item: &String)
        requires
            i < self.item_seq().len(),
        ensures
            item@ == self.item_seq()[i as int],
    {
        &self.items[i]
    }

    /// Makes `item` a member. Returns whether it was none before.
    pub fn insert(&mut self, item: String) -> (added: bool)
        requires
            old(self).wf(),
        ensures
            final(self).wf(),
            final(self)@ == old(self)@.insert(item@),
            added == !old(self)@.contains(item@),
            added ==> final(self).item_seq() == old(self).item_seq().push(item@),
            !added ==> final(self).item_seq() == old(self).item_seq(),
    {
        if self.contains(item.as_str()) {
            proof {
                assert(self@ =~= self@.insert(item@));
            }
            false
        } else {
            let ghost k = item@;
            self.items.push(item);
            proof {
                assert(final(self).item_seq() =~= old(self).item_seq().push(k));
                assert(final(self)@ =~= old(self)@.insert(k)) by {
                    assert forall|x: Seq<char>| final(self)@.contains(x) <==> old(self)@.insert(
                        k,
                    ).contains(x) by {
                        if old(self).item_seq().contains(x) {
                            let j = old(self).item_seq().index_of(x);
                            assert(final(self).item_seq()[j] == x);
                        }
                        if x == k {
                            assert(final(self).item_seq()[old(self).item_seq().len() as int] == x);
                        }
                        if final(self).item_seq().contains(x) && x != k {
                            let j = final(self).item_seq().index_of(x);
                            assert(old(self).item_seq()[j] == x);
                        }
                    }
                }
            }
            true
        }
    }
}

} // verus!
