//! A small dictionary from names to values, kept in the order in which the
//! names were first given.

use vstd::prelude::*;

verus! {

/// The names with one more, unless they hold it already.
pub open spec fn listed(names: Seq<Seq<char>>, name: Seq<char>) -> Seq<Seq<char>> {
    if names.contains(name) {
        names
    } else {
        names.push(name)
    }
}

/// A dictionary from names to values.
#[derive(Debug)]
pub struct Table<V> {
    pub keys: Vec<String>,
    pub values: Vec<V>,
}

impl<V: View> Table<V> {
    /// Every name has its value, and no name stands twice.
    pub open spec fn wf(&self) -> bool {
        &&& self.keys.len() == self.values.len()
        &&& forall|i: int, j: int|
            0 <= i < self.keys.len() && 0 <= j < self.keys.len() && i != j
                ==> self.keys[i]@ != self.keys[j]@
    }

    /// Whether the name stands at `i`.
    pub open spec fn stands_at(&self, key: Seq<char>, i: int) -> bool {
        0 <= i < self.keys.len() && self.keys[i]@ == key
    }

    /// Whether the dictionary holds the name.
    pub open spec fn has(&self, key: Seq<char>) -> bool {
        exists|i: int| self.stands_at(key, i)
    }

    /// The place of a name that the dictionary holds.
    pub open spec fn place(&self, key: Seq<char>) -> int {
        choose|i: int| self.stands_at(key, i)
    }

    /// The dictionary as a map from names to the models of their values.
    pub open spec fn view(&self) -> Map<Seq<char>, V::V> {
        Map::new(|key: Seq<char>| self.has(key), |key: Seq<char>| self.values[self.place(key)]@)
    }

    /// The names of the dictionary, in the order in which they were first
    /// given.
    pub open spec fn names(&self) -> Seq<Seq<char>> {
        Seq::new(self.keys.len() as nat, |i: int| self.keys[i]@)
    }

    /// An empty dictionary.
    pub fn new() -> (r: Self)
        ensures
            r.wf(),
            r@ == Map::<Seq<char>, V::V>::empty(),
            r.names() == Seq::<Seq<char>>::empty(),
    {
        let r = Table { keys: Vec::new(), values: Vec::new() };
        assert(r@ =~= Map::<Seq<char>, V::V>::empty());
        assert(r.names() =~= Seq::<Seq<char>>::empty());
        r
    }

    /// How many names the dictionary holds.
    pub fn len(&self) -> (r: usize)
        requires
            self.wf(),
        ensures
            r == self.names().len(),
    {
        self.keys.len()
    }

    /// The name at `i`, in the order in which the names were first given,
    /// and its value.
    pub fn entry(&self, i: usize) -> (r: (&String, &V))
        requires
            self.wf(),
            i < self.names().len(),
        ensures
            r.0@ == self.names()[i as int],
            self@.contains_key(r.0@),
            self@[r.0@] == r.1@,
    {
        assert(self.stands_at(self.keys[i as int]@, i as int));
        assert(self.stands_at(self.keys[i as int]@, self.place(self.keys[i as int]@)));
        (&self.keys[i], &self.values[i])
    }

    /// The place of the name, if the dictionary holds it.
    pub fn find(&self, key: &str) -> (r: Option<usize>)
        requires
            self.wf(),
        ensures
            match r {
                Some(i) => self.stands_at(key@, i as int) && self.place(key@) == i,
                None => !self.has(key@),
            },
            r is Some == self@.contains_key(key@),
    {
        let mut i: usize = 0;
        while i < self.keys.len()
            invariant
                self.wf(),
                i <= self.keys.len(),
                forall|j: int| 0 <= j < i ==> self.keys[j]@ != key@,
            decreases self.keys.len() - i,
        {
            if *self.keys[i].as_str() == *key {
                assert(self.stands_at(key@, i as int));
                assert(self.stands_at(key@, self.place(key@)));
                return Some(i);
            }
            i += 1;
        }
        None
    }

    /// Whether the dictionary holds the name.
    pub fn contains_key(&self, key: &str) -> (r: bool)
        requires
            self.wf(),
        ensures
            r == self@.contains_key(key@),
    {
        self.find(key).is_some()
    }

    /// The value of the name, if the dictionary holds it.
    pub fn get(&self, key: &str) -> (r: Option<&V>)
        requires
            self.wf(),
        ensures
            match r {
                Some(v) => self@.contains_key(key@) && self@[key@] == v@,
                None => !self@.contains_key(key@),
            },
    {
        match self.find(key) {
            Some(i) => Some(&self.values[i]),
            None => None,
        }
    }

    /// Gives the name the value, whether or not it had one.
    pub fn insert(&mut self, key: String, value: V)
        requires
            old(self).wf(),
        ensures
            final(self).wf(),
            final(self)@ == old(self)@.insert(key@, value@),
            final(self).names() == listed(old(self).names(), key@),
    {
        match self.find(key.as_str()) {
            Some(i) => {
                self.values[i] = value;
                proof {
                    assert(old(self).names()[i as int] == key@);
                    assert(self.names() =~= old(self).names());
                    assert forall|k: Seq<char>| self.has(k) == old(self).has(k) by {
                        if self.has(k) {
                            assert(old(self).stands_at(k, self.place(k)));
                        }
                        if old(self).has(k) {
                            assert(self.stands_at(k, old(self).place(k)));
                        }
                    }
                    assert forall|k: Seq<char>| self.has(k) implies self.place(k) == old(
                        self,
                    ).place(k) by {
                        assert(self.stands_at(k, self.place(k)));
                        assert(old(self).stands_at(k, self.place(k)));
                        assert(old(self).stands_at(k, old(self).place(k)));
                    }
                    assert(self.stands_at(key@, i as int));
                    assert(self.stands_at(key@, self.place(key@)));
                    assert(self@ =~= old(self)@.insert(key@, value@));
                }
            },
            None => {
                self.keys.push(key);
                self.values.push(value);
                proof {
                    let n = old(self).keys.len() as int;
                    assert(!old(self).names().contains(key@)) by {
                        if old(self).names().contains(key@) {
                            let j = choose|j: int|
                                0 <= j < old(self).names().len() && old(self).names()[j] == key@;
                            assert(old(self).stands_at(key@, j));
                        }
                    }
                    assert(self.names() =~= old(self).names().push(key@));
                    assert(self.stands_at(key@, n));
                    assert forall|i: int| 0 <= i < n implies self.keys[i]@ != key@ by {
                        assert(!old(self).stands_at(key@, i));
                    }
                    assert(self.wf());
                    assert(self.stands_at(key@, self.place(key@)));
                    assert(self.place(key@) == n);
                    assert forall|k: Seq<char>| self.has(k) == (k == key@ || old(self).has(k)) by {
                        if self.has(k) && k != key@ {
                            assert(old(self).stands_at(k, self.place(k)));
                        }
                        if old(self).has(k) {
                            assert(self.stands_at(k, old(self).place(k)));
                        }
                    }
                    assert forall|k: Seq<char>| old(self).has(k) implies self.place(k) == old(
                        self,
                    ).place(k) by {
                        assert(old(self).stands_at(k, old(self).place(k)));
                        assert(self.stands_at(k, old(self).place(k)));
                        assert(self.stands_at(k, self.place(k)));
                    }
                    assert(self@ =~= old(self)@.insert(key@, value@));
                }
            },
        }
    }
}

} // verus!
