//! A map that keeps its keys in the order in which they first came in.
use vstd::prelude::*;

verus! {

/// A key of a `KeyMap`. Two keys are the same where their views are.
pub trait Key: View + Sized {
    fn same(&self, other: &Self) -> (r: bool)
        ensures
            r == (self@ == other@),
    ;
}

impl Key for String {
    fn same(&self, other: &Self) -> (r: bool) {
        *self == *other
    }
}

/// Keys, each with one value.
pub struct KeyMap<K, V> {
    entries: Vec<(K, V)>,
}

impl<K: Key, V> View for KeyMap<K, V> {
    type V = Map<K::V, V>;

    closed spec fn view(&self) -> Map<K::V, V> {
        Map::new(
            |k: K::V| self.keys().contains(k),
            |k: K::V| self.entries@[self.place(k)].1,
        )
    }
}

impl<K: Key, V> KeyMap<K, V> {
    /// The keys, in the order in which they first came in.
    pub closed spec fn keys(&self) -> Seq<K::V> {
        self.entries@.map_values(|e: (K, V)| e.0@)
    }

    spec fn place(&self, k: K::V) -> int {
        choose|i: int| 0 <= i < self.entries@.len() && #[trigger] self.entries@[i].0@ == k
    }

    /// No key comes twice.
    pub closed spec fn wf(&self) -> bool {
        forall|i: int, j: int|
            0 <= i < j < self.entries@.len() ==> #[trigger] self.entries@[i].0@
                != #[trigger] self.entries@[j].0@
    }

    /// What a well-formed map guarantees: its keys are those of its view, and
    /// none comes twice.
    pub proof fn keys_of_view(&self)
        requires
            self.wf(),
        ensures
            self.keys().no_duplicates(),
            forall|k: K::V| #[trigger] self@.contains_key(k) <==> self.keys().contains(k),
            self@.dom() == self.keys().to_set(),
            self@.dom().finite(),
            self@.len() == self.keys().len(),
    {
        assert forall|i: int, j: int|
            0 <= i < self.keys().len() && 0 <= j < self.keys().len() && i
                != j implies self.keys()[i] != self.keys()[j] by {
            if i < j {
                assert(self.entries@[i].0@ != self.entries@[j].0@);
            } else {
                assert(self.entries@[j].0@ != self.entries@[i].0@);
            }
        }
        assert(self@.dom() =~= self.keys().to_set());
        self.keys().unique_seq_to_set();
    }

    proof fn lemma_at(&self, i: int)
        requires
            self.wf(),
            0 <= i < self.entries@.len(),
        ensures
            self@.contains_key(self.entries@[i].0@),
            self@[self.entries@[i].0@] == self.entries@[i].1,
            self.keys()[i] == self.entries@[i].0@,
    {
        let k = self.entries@[i].0@;
        assert(self.keys()[i] == k);
        assert(self.keys().contains(k));
        let p = self.place(k);
        assert(0 <= p < self.entries@.len() && self.entries@[p].0@ == k);
        if p < i {
            assert(self.entries@[p].0@ != self.entries@[i].0@);
        } else if i < p {
            assert(self.entries@[i].0@ != self.entries@[p].0@);
        }
    }

    /// An empty map.
    pub fn new() -> (r: Self)
        ensures
            r.wf(),
            r.keys() == Seq::<K::V>::empty(),
            r@ == Map::<K::V, V>::empty(),
    {
        let r = KeyMap { entries: Vec::new() };
        assert(r.keys() =~= Seq::<K::V>::empty());
        assert(r@ =~= Map::<K::V, V>::empty());
        r
    }

    /// How many keys there are.
    pub fn len(&self) -> (r: usize)
        requires
            self.wf(),
        ensures
            r == self.keys().len(),
            r == self@.len(),
    {
        proof {
            self.keys_of_view();
        }
        self.entries.len()
    }

    fn find(&self, key: &K) -> (r: Option<usize>)
        requires
            self.wf(),
        ensures
            match r {
                Some(i) => i < self.entries@.len() && self.entries@[i as int].0@ == key@
                    && self@.contains_key(key@) && self@[key@] == self.entries@[i as int].1
                    && self.keys()[i as int] == key@,
                None => !self@.contains_key(key@) && !self.keys().contains(key@),
            },
    {
        for i in 0..self.entries.len()
            invariant
                self.wf(),
                forall|j: int| 0 <= j < i ==> self.entries@[j].0@ != key@,
        {
            if self.entries[i].0.same(key) {
                proof {
                    self.lemma_at(i as int);
                }
                return Some(i);
            }
        }
        proof {
            if self.keys().contains(key@) {
                let j = choose|j: int| 0 <= j < self.keys().len() && self.keys()[j] == key@;
                assert(self.entries@[j].0@ == key@);
            }
        }
        None
    }

    /// Whether the key is in the map.
    pub fn contains(&self, key: &K) -> (r: bool)
        requires
            self.wf(),
        ensures
            r == self@.contains_key(key@),
    {
        self.find(key).is_some()
    }

    /// The value of the key.
    pub fn get(&self, key: &K) -> (r: Option<&V>)
        requires
            self.wf(),
        ensures
            match r {
                Some(v) => self@.contains_key(key@) && *v == self@[key@],
                None => !self@.contains_key(key@),
            },
    {
        match self.find(key) {
            Some(i) => Some(&self.entries[i].1),
            None => None,
        }
    }

    /// The key and the value at place `i`.
    pub fn entry(&self, i: usize) -> (r: (&K, &V))
        requires
            self.wf(),
            i < self.keys().len(),
        ensures
            r.0@ == self.keys()[i as int],
            self@.contains_key(r.0@),
            *r.1 == self@[r.0@],
    {
        proof {
            self.lemma_at(i as int);
        }
        (&self.entries[i].0, &self.entries[i].1)
    }

    /// Gives the key a value. Where it had one, that one is returned, and the
    /// key stays in its place.
    pub fn insert(&mut self, key: K, value: V) -> (r: Option<V>)
        requires
            old(self).wf(),
        ensures
            final(self).wf(),
            final(self)@ == old(self)@.insert(key@, value),
            final(self).keys() == if old(self)@.contains_key(key@) {
                old(self).keys()
            } else {
                old(self).keys().push(key@)
            },
            match r {
                Some(v) => old(self)@.contains_key(key@) && v == old(self)@[key@],
                None => !old(self)@.contains_key(key@),
            },
    {
        let ghost before = *self;
        match self.find(&key) {
            Some(i) => {
                let (_, former) = self.entries.remove(i);
                self.entries.insert(i, (key, value));
                proof {
                    assert(self.entries@ =~= before.entries@.update(i as int, (key, value)));
                    assert(self.keys() =~= before.keys());
                    assert forall|k: int, j: int|
                        0 <= k < j < self.entries@.len() implies #[trigger] self.entries@[k].0@
                        != #[trigger] self.entries@[j].0@ by {
                        assert(before.entries@[k].0@ != before.entries@[j].0@);
                    }
                    assert(self.entries@[i as int].0@ == key@);
                    assert forall|j: int|
                        0 <= j < before.entries@.len() && (#[trigger] before.entries@[j]).0@
                            != key@ implies self.entries@.contains(before.entries@[j]) by {
                        assert(self.entries@[j] == before.entries@[j]);
                    }
                    self.lemma_same_view(before@.insert(key@, value), before, key@);
                }
                Some(former)
            },
            None => {
                self.entries.push((key, value));
                proof {
                    assert(self.keys() =~= before.keys().push(key@));
                    assert forall|k: int, j: int|
                        0 <= k < j < self.entries@.len() implies #[trigger] self.entries@[k].0@
                        != #[trigger] self.entries@[j].0@ by {
                        if j < before.entries@.len() {
                            assert(before.entries@[k].0@ != before.entries@[j].0@);
                        } else {
                            assert(before.keys()[k] == before.entries@[k].0@);
                        }
                    }
                    let last = before.entries@.len() as int;
                    assert(self.entries@[last].0@ == key@);
                    assert(self.keys()[last] == key@);
                    assert forall|j: int|
                        0 <= j < before.entries@.len() && (#[trigger] before.entries@[j]).0@
                            != key@ implies self.entries@.contains(before.entries@[j]) by {
                        assert(self.entries@[j] == before.entries@[j]);
                    }
                    assert forall|k: K::V| #[trigger]
                        before@.insert(key@, value).contains_key(k) <==> self.keys().contains(
                            k,
                        ) by {
                        if before.keys().contains(k) {
                            let j = choose|j: int|
                                0 <= j < before.keys().len() && before.keys()[j] == k;
                            assert(self.keys()[j] == k);
                        }
                    }
                    self.lemma_same_view(before@.insert(key@, value), before, key@);
                }
                None
            },
        }
    }

    proof fn lemma_same_view(&self, m: Map<K::V, V>, before: Self, key: K::V)
        requires
            self.wf(),
            before.wf(),
            forall|k: K::V| #[trigger] m.contains_key(k) <==> self.keys().contains(k),
            m.contains_key(key) ==> exists|i: int|
                0 <= i < self.entries@.len() && #[trigger] self.entries@[i].0@ == key
                    && self.entries@[i].1 == m[key],
            forall|k: K::V|
                k != key && #[trigger] m.contains_key(k) ==> before@.contains_key(k) && m[k]
                    == before@[k],
            forall|i: int|
                0 <= i < before.entries@.len() && (#[trigger] before.entries@[i]).0@ != key
                    ==> self.entries@.contains(before.entries@[i]),
        ensures
            self@ == m,
    {
        assert forall|k: K::V| #[trigger] m.contains_key(k) implies self@[k] == m[k] by {
            if k == key {
                let i = choose|i: int|
                    0 <= i < self.entries@.len() && #[trigger] self.entries@[i].0@ == key
                        && self.entries@[i].1 == m[key];
                self.lemma_at(i);
            } else {
                before.keys_of_view();
                let i = choose|i: int| 0 <= i < before.keys().len() && before.keys()[i] == k;
                before.lemma_at(i);
                assert(self.entries@.contains(before.entries@[i]));
                let j = choose|j: int|
                    0 <= j < self.entries@.len() && self.entries@[j] == before.entries@[i];
                self.lemma_at(j);
            }
        }
        assert forall|k: K::V| self@.dom().contains(k) <==> m.dom().contains(k) by {
            assert(m.contains_key(k) <==> self.keys().contains(k));
        }
        assert(self@.dom() =~= m.dom());
        assert forall|k: K::V| #[trigger] m.dom().contains(k) implies self@[k] == m[k] by {
            assert(m.contains_key(k));
        }
        assert(self@ =~= m);
    }

    /// Takes the key and its value out of the map.
    pub fn remove(&mut self, key: &K) -> (r: Option<V>)
        requires
            old(self).wf(),
        ensures
            final(self).wf(),
            final(self)@ == old(self)@.remove(key@),
            final(self).keys() == old(self).keys().remove_value(key@),
            match r {
                Some(v) => old(self)@.contains_key(key@) && v == old(self)@[key@],
                None => !old(self)@.contains_key(key@),
            },
    {
        let ghost before = *self;
        proof {
            self.keys().index_of_first_ensures(key@);
        }
        match self.find(key) {
            Some(i) => {
                let (_, former) = self.entries.remove(i);
                proof {
                    before.keys_of_view();
                    let p = before.keys().index_of_first(key@)->0;
                    assert(before.keys()[p] == before.keys()[i as int]);
                    assert(p == i);
                    assert(self.keys() =~= before.keys().remove(i as int));
                    assert forall|k: int, j: int|
                        0 <= k < j < self.entries@.len() implies #[trigger] self.entries@[k].0@
                        != #[trigger] self.entries@[j].0@ by {
                        let k0 = if k < i {
                            k
                        } else {
                            k + 1
                        };
                        let j0 = if j < i {
                            j
                        } else {
                            j + 1
                        };
                        assert(before.entries@[k0].0@ != before.entries@[j0].0@);
                    }
                    self.lemma_removed(before, i as int);
                }
                Some(former)
            },
            None => {
                assert(self@ =~= before@.remove(key@));
                None
            },
        }
    }

    proof fn lemma_removed(&self, before: Self, i: int)
        requires
            self.wf(),
            before.wf(),
            0 <= i < before.entries@.len(),
            self.entries@ == before.entries@.remove(i),
        ensures
            self@ == before@.remove(before.entries@[i].0@),
    {
        let key = before.entries@[i].0@;
        let m = before@.remove(key);
        before.lemma_at(i);
        assert forall|j: int|
            0 <= j < before.entries@.len() && (#[trigger] before.entries@[j]).0@
                != key implies self.entries@.contains(before.entries@[j]) by {
            if j < i {
                assert(self.entries@[j] == before.entries@[j]);
            } else {
                assert(self.entries@[j - 1] == before.entries@[j]);
            }
        }
        assert forall|k: K::V| m.contains_key(k) <==> self.keys().contains(k) by {
            if m.contains_key(k) {
                let j = choose|j: int| 0 <= j < before.keys().len() && before.keys()[j] == k;
                assert(before.entries@[j].0@ == k);
                assert(self.entries@.contains(before.entries@[j]));
                let h = choose|h: int|
                    0 <= h < self.entries@.len() && self.entries@[h] == before.entries@[j];
                assert(self.keys()[h] == k);
            }
            if self.keys().contains(k) {
                let h = choose|h: int| 0 <= h < self.keys().len() && self.keys()[h] == k;
                let j = if h < i {
                    h
                } else {
                    h + 1
                };
                assert(self.entries@[h] == before.entries@[j]);
                before.lemma_at(j);
                if k == key {
                    if j < i {
                        assert(before.entries@[j].0@ != before.entries@[i].0@);
                    } else {
                        assert(before.entries@[i].0@ != before.entries@[j].0@);
                    }
                }
            }
        }
        self.lemma_same_view(m, before, key);
    }
}

} // verus!
