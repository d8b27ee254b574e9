//! Maps and sets of strings that can be walked in a fixed order.
//!
//! A map keeps its entries in a vector and finds them through a hash index.
//! The order is that of insertion, except that a removal moves the last entry
//! into the gap.

use vstd::hash_map::StringHashMap;
use vstd::prelude::*;

verus! {

/// A string is in a list with one more string if it is in the list or is that one.
pub proof fn lemma_pushed(s: Seq<Seq<char>>, x: Seq<char>, y: Seq<char>)
    ensures
        s.push(x).contains(y) <==> s.contains(y) || y == x,
{
    let t = s.push(x);
    if s.contains(y) {
        let i = choose|i: int| 0 <= i < s.len() && s[i] == y;
        assert(t[i] == y);
    }
    if y == x {
        assert(t[s.len() as int] == y);
    } else if t.contains(y) {
        let i = choose|i: int| 0 <= i < t.len() && t[i] == y;
        assert(s[i] == y);
    }
}

/// A map from strings to values.
pub struct StringMap<V> {
    index: StringHashMap<usize>,
    entries: Vec<(String, V)>,
}

impl<V> View for StringMap<V> {
    type V = Map<Seq<char>, V>;

    closed spec fn view(&self) -> Map<Seq<char>, V> {
        Map::new(
            |k: Seq<char>| self.index@.contains_key(k),
            |k: Seq<char>| self.entries@[self.index@[k] as int].1,
        )
    }
}

impl<V> StringMap<V> {
    /// The index names the place of every entry, and nothing else.
    pub closed spec fn wf(&self) -> bool {
        &&& forall|k: Seq<char>| #[trigger]
            self.index@.contains_key(k) ==> self.index@[k] < self.entries@.len()
                && self.entries@[self.index@[k] as int].0@ == k
        &&& forall|i: int|
            0 <= i < self.entries@.len() ==> self.index@.contains_key(
                (#[trigger] self.entries@[i]).0@,
            ) && self.index@[self.entries@[i].0@] == i
    }

    /// The keys, in the order in which the map is walked.
    pub closed spec fn keys(&self) -> Seq<Seq<char>> {
        self.entries@.map_values(|e: (String, V)| e.0@)
    }

    /// Every key is walked once.
    pub proof fn lemma_keys(&self)
        requires
            self.wf(),
        ensures
            self.keys().no_duplicates(),
            forall|i: int| 0 <= i < self.keys().len() ==> #[trigger] self@.contains_key(self.keys()[i]),
            forall|k: Seq<char>| #[trigger] self@.contains_key(k) <==> self.keys().contains(k),
            self@.dom().len() == self.keys().len(),
    {
        let keys = self.keys();
        assert forall|i: int, j: int| 0 <= i < keys.len() && 0 <= j < keys.len() && i != j implies keys[i]
            != keys[j] by {
            let a = self.entries@[i];
            let b = self.entries@[j];
        }
        assert forall|i: int| 0 <= i < keys.len() implies #[trigger] self@.contains_key(keys[i]) by {
            let a = self.entries@[i];
        }
        assert forall|k: Seq<char>| #[trigger] self@.contains_key(k) implies keys.contains(k) by {
            assert(keys[self.index@[k] as int] == k);
        }
        keys.unique_seq_to_set();
        assert(keys.to_set() =~= self@.dom());
    }

    /// An empty map.
    pub fn new() -> (r: Self)
        ensures
            r.wf(),
            r@ == Map::<Seq<char>, V>::empty(),
            r.keys() == Seq::<Seq<char>>::empty(),
    {
        let r = StringMap { index: StringHashMap::new(), entries: Vec::new() };
        assert(r@ =~= Map::<Seq<char>, V>::empty());
        assert(r.keys() =~= Seq::<Seq<char>>::empty());
        r
    }

    /// The number of entries.
    pub fn len(&self) -> (r: usize)
        ensures
            r == self.keys().len(),
    {
        self.entries.len()
    }

    /// Whether the map has no entry.
    pub fn is_empty(&self) -> (r: bool)
        requires
            self.wf(),
        ensures
            r == (self@ == Map::<Seq<char>, V>::empty()),
    {
        proof {
            if self.entries@.len() == 0 {
                assert(self@ =~= Map::<Seq<char>, V>::empty());
            } else {
                let e = self.entries@[0];
                assert(self@.contains_key(e.0@));
            }
        }
        self.entries.len() == 0
    }

    /// Whether the map has an entry for the key.
    pub fn contains_key(&self, key: &str) -> (r: bool)
        ensures
            r == self@.contains_key(key@),
    {
        self.index.contains_key(key)
    }

    /// The value of a key.
    pub fn get(&self, key: &str) -> (r: Option<&V>)
        requires
            self.wf(),
        ensures
            match r {
                Some(v) => self@.contains_key(key@) && *v == self@[key@],
                None => !self@.contains_key(key@),
            },
    {
        match self.index.get(key) {
            Some(i) => Some(&self.entries[*i].1),
            None => None,
        }
    }

    /// The value of a key, for change in place.
    pub fn get_mut(&mut self, key: &str) -> (r: Option<&mut V>)
        requires
            old(self).wf(),
        ensures
            final(self).wf(),
            final(self).keys() == old(self).keys(),
            match r {
                Some(v) => old(self)@.contains_key(key@) && *v == old(self)@[key@] && final(self)@
                    == old(self)@.insert(key@, *final(v)),
                None => !old(self)@.contains_key(key@) && final(self)@ == old(self)@,
            },
    {
        match self.index.get(key) {
            Some(i) => {
                let place: usize = *i;
                let e = &mut self.entries[place];
                Some(&mut e.1)
            },
            None => None,
        }
    }

    /// Sets the value of a key, whether or not it had one.
    pub fn insert(&mut self, key: String, value: V)
        requires
            old(self).wf(),
        ensures
            final(self).wf(),
            final(self)@ == old(self)@.insert(key@, value),
            final(self).keys() == (if old(self)@.contains_key(key@) {
                old(self).keys()
            } else {
                old(self).keys().push(key@)
            }),
    {
        let ghost before = *self;
        let found = match self.index.get(key.as_str()) {
            Some(i) => Some(*i),
            None => None,
        };
        match found {
            Some(i) => {
                self.entries.set(i, (key, value));
                assert(self.keys() =~= before.keys());
            },
            None => {
                let place: usize = self.entries.len();
                self.index.insert(key.clone(), place);
                self.entries.push((key, value));
                assert(self.keys() =~= before.keys().push(key@));
                assert forall|i: int| 0 <= i < self.entries@.len() implies self.index@.contains_key(
                    (#[trigger] self.entries@[i]).0@,
                ) && self.index@[self.entries@[i].0@] == i by {
                    if i < place {
                        assert(before.entries@[i] == self.entries@[i]);
                    }
                }
            },
        }
        assert(self@ =~= before@.insert(key@, value));
    }

    /// Drops the entry of a key, if there is one.
    pub fn remove(&mut self, key: &str)
        requires
            old(self).wf(),
        ensures
            final(self).wf(),
            final(self)@ == old(self)@.remove(key@),
    {
        let ghost before = *self;
        let found = match self.index.get(key) {
            Some(i) => Some(*i),
            None => None,
        };
        match found {
            Some(i) => {
                let last: usize = self.entries.len() - 1;
                self.index.remove(key);
                let gone = self.entries.swap_remove(i);
                if i < last {
                    let moved = self.entries[i].0.clone();
                    self.index.insert(moved, i);
                }
                proof {
                    assert(before.entries@[i as int].0@ == key@);
                    assert forall|k: Seq<char>| #[trigger]
                        self.index@.contains_key(k) implies self.index@[k] < self.entries@.len()
                        && self.entries@[self.index@[k] as int].0@ == k by {
                        if i < last && k == before.entries@[last as int].0@ {
                        } else {
                            assert(before.index@.contains_key(k));
                            assert(before.entries@[before.index@[k] as int].0@ == k);
                        }
                    }
                    assert forall|j: int| 0 <= j < self.entries@.len() implies self.index@.contains_key(
                        (#[trigger] self.entries@[j]).0@,
                    ) && self.index@[self.entries@[j].0@] == j by {
                        let e = before.entries@[j];
                        let l = before.entries@[last as int];
                    }
                    assert(self@ =~= before@.remove(key@));
                }
            },
            None => {
                assert(self@ =~= before@.remove(key@));
            },
        }
    }

    /// The key at a place in the order of walking.
    pub fn key_at(&self, i: usize) -> (r: &String)
        requires
            i < self.keys().len(),
        ensures
            r@ == self.keys()[i as int],
    {
        &self.entries[i].0
    }

    /// The value at a place in the order of walking.
    pub fn value_at(&self, i: usize) -> (r: &V)
        requires
            self.wf(),
            i < self.keys().len(),
        ensures
            *r == self@[self.keys()[i as int]],
    {
        &self.entries[i].1
    }
}

impl<V> Default for StringMap<V> {
    fn default() -> (r: Self)
        ensures
            r.wf(),
            r@ == Map::<Seq<char>, V>::empty(),
    {
        StringMap::new()
    }
}

/// A set of strings.
pub struct StringSet {
    members: StringMap<()>,
}

impl View for StringSet {
    type V = Set<Seq<char>>;

    closed spec fn view(&self) -> Set<Seq<char>> {
        self.members@.dom()
    }
}

impl StringSet {
    /// The map behind the set is well formed.
    pub closed spec fn wf(&self) -> bool {
        self.members.wf()
    }

    /// The members, in the order in which the set is walked.
    pub closed spec fn items(&self) -> Seq<Seq<char>> {
        self.members.keys()
    }

    /// Every member is walked once.
    pub proof fn lemma_items(&self)
        requires
            self.wf(),
        ensures
            self.items().no_duplicates(),
            self.items().to_set() == self@,
    {
        self.members.lemma_keys();
        assert(self.items().to_set() =~= self@);
    }

    /// An empty set.
    pub fn new() -> (r: Self)
        ensures
            r.wf(),
            r@ == Set::<Seq<char>>::empty(),
            r.items() == Seq::<Seq<char>>::empty(),
    {
        let r = StringSet { members: StringMap::new() };
        assert(r@ =~= Set::<Seq<char>>::empty());
        r
    }

    /// The number of members.
    pub fn len(&self) -> (r: usize)
        ensures
            r == self.items().len(),
    {
        self.members.len()
    }

    /// Whether the string is a member.
    pub fn contains(&self, item: &str) -> (r: bool)
        ensures
            r == self@.contains(item@),
    {
        self.members.contains_key(item)
    }

    /// Adds a member; returns whether it is new.
    pub fn insert(&mut self, item: String) -> (r: bool)
        requires
            old(self).wf(),
        ensures
            final(self).wf(),
            r == !old(self)@.contains(item@),
            final(self)@ == old(self)@.insert(item@),
            final(self).items() == (if r {
                old(self).items().push(item@)
            } else {
                old(self).items()
            }),
    {
        let ghost before = self@;
        let new = !self.members.contains_key(item.as_str());
        self.members.insert(item, ());
        assert(self@ =~= before.insert(item@));
        new
    }

    /// The member at a place in the order of walking.
    pub fn item_at(&self, i: usize) -> (r: &String)
        requires
            i < self.items().len(),
        ensures
            r@ == self.items()[i as int],
    {
        self.members.key_at(i)
    }
}

impl Default for StringSet {
    fn default() -> (r: Self)
        ensures
            r.wf(),
            r@ == Set::<Seq<char>>::empty(),
    {
        StringSet::new()
    }
}

} // verus!
