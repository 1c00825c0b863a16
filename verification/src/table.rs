//! A small map keyed by text, kept in the order in which the keys came.

use vstd::prelude::*;

verus! {

/// The texts of `keys`.
pub open spec fn texts(keys: Seq<String>) -> Seq<Seq<char>> {
    Seq::new(keys.len(), |i: int| keys[i]@)
}

/// A map from text to `V`. A key occurs once; a new key goes to the end, and
/// a key that is written again keeps its place.
#[derive(Debug)]
pub struct Table<V> {
    keys: Vec<String>,
    values: Vec<V>,
}

impl<V> Table<V> {
    /// The keys in the order in which they came.
    pub closed spec fn keys(&self) -> Seq<Seq<char>> {
        texts(self.keys@)
    }

    /// The values, each at the place of its key.
    pub closed spec fn values(&self) -> Seq<V> {
        self.values@
    }

    /// Every key has a value and occurs once.
    #[verifier::type_invariant]
    pub open spec fn wf(&self) -> bool {
        &&& self.keys().len() == self.values().len()
        &&& self.keys().no_duplicates()
    }

    /// The place of `key`, or -1 where the table does not hold it.
    pub open spec fn place(&self, key: Seq<char>) -> int {
        self.keys().index_of_first(key).unwrap_or(-1)
    }

    /// The table as a map.
    pub open spec fn map(&self) -> Map<Seq<char>, V> {
        Map::new(
            |key: Seq<char>| self.keys().contains(key),
            |key: Seq<char>| self.values()[self.keys().index_of(key)],
        )
    }

    /// Where a key stands, there it is found, and nowhere else.
    pub proof fn lemma_place(&self, i: int)
        requires
            self.wf(),
            0 <= i < self.keys().len(),
        ensures
            self.keys().contains(self.keys()[i]),
            self.keys().index_of(self.keys()[i]) == i,
            self.map().contains_key(self.keys()[i]),
            self.map()[self.keys()[i]] == self.values()[i],
    {
        let key = self.keys()[i];
        assert(self.keys().contains(key));
        let j = self.keys().index_of(key);
        assert(0 <= j < self.keys().len() && self.keys()[j] == key);
    }

    /// A table with no key.
    pub fn new() -> (table: Table<V>)
        ensures
            table.wf(),
            table.keys() == Seq::<Seq<char>>::empty(),
            table.values() == Seq::<V>::empty(),
            table.map() == Map::<Seq<char>, V>::empty(),
    {
        let table = Table { keys: Vec::new(), values: Vec::new() };
        proof {
            assert(table.keys() =~= Seq::<Seq<char>>::empty());
            assert(table.map() =~= Map::<Seq<char>, V>::empty());
        }
        table
    }

    /// The map has as many keys as the table lists.
    pub proof fn lemma_size(&self)
        requires
            self.wf(),
        ensures
            self.map().dom().finite(),
            self.map().dom().len() == self.keys().len(),
    {
        assert(self.map().dom() =~= self.keys().to_set());
        self.keys().unique_seq_to_set();
    }

    /// How many keys the table holds.
    pub fn len(&self) -> (n: usize)
        ensures
            n == self.keys().len(),
            n == self.map().dom().len(),
    {
        proof {
            use_type_invariant(self);
            self.lemma_size();
        }
        self.keys.len()
    }

    /// The place of `key` in the table.
    pub fn find(&self, key: &str) -> (r: Option<usize>)
        ensures
            match r {
                Some(i) => i < self.keys().len() && self.keys()[i as int] == key@
                    && self.map().contains_key(key@) && self.map()[key@] == self.values()[i as int],
                None => !self.keys().contains(key@) && !self.map().contains_key(key@),
            },
    {
        proof {
            use_type_invariant(self);
        }
        let wanted: String = key.to_owned();
        let mut i: usize = 0;
        while i < self.keys.len()
            invariant
                i <= self.keys.len(),
                wanted@ == key@,
                self.wf(),
                forall|p: int| 0 <= p < i ==> self.keys()[p] != key@,
            decreases self.keys.len() - i,
        {
            if self.keys[i] == wanted {
                proof {
                    assert(self.keys()[i as int] == key@);
                    self.lemma_place(i as int);
                }
                return Some(i);
            }
            i = i + 1;
        }
        proof {
            if self.keys().contains(key@) {
                let p = choose|p: int| 0 <= p < self.keys().len() && self.keys()[p] == key@;
                assert(false);
            }
        }
        None
    }

    /// The value of `key`.
    pub fn get(&self, key: &str) -> (r: Option<&V>)
        ensures
            match r {
                Some(value) => self.map().contains_key(key@) && *value == self.map()[key@],
                None => !self.map().contains_key(key@),
            },
    {
        proof {
            use_type_invariant(self);
        }
        match self.find(key) {
            Some(i) => Some(&self.values[i]),
            None => None,
        }
    }

    /// Gives `key` the value `value`. A key that the table holds keeps its
    /// place; a new key goes to the end.
    pub fn insert(&mut self, key: &str, value: V)
        ensures
            final(self).wf(),
            final(self).map() == old(self).map().insert(key@, value),
            old(self).keys().contains(key@) ==> final(self).keys() == old(self).keys()
                && final(self).values() == old(self).values().update(old(self).place(key@), value),
            !old(self).keys().contains(key@) ==> final(self).keys() == old(self).keys().push(key@)
                && final(self).values() == old(self).values().push(value),
    {
        proof {
            use_type_invariant(&*self);
        }
        let ghost before = *self;
        match self.find(key) {
            Some(i) => {
                self.values[i] = value;
                proof {
                    assert(before.keys().index_of_first(key@) == Some(i as int)) by {
                        before.keys().index_of_first_ensures(key@);
                    }
                    assert forall|k: Seq<char>| #[trigger]
                        self.map().contains_key(k) implies self.map()[k] == before.map().insert(
                        key@,
                        value,
                    )[k] by {
                        let p = self.keys().index_of(k);
                        before.lemma_place(p);
                    }
                    assert(self.map() =~= before.map().insert(key@, value));
                }
            },
            None => {
                let mut taken: Table<V> = Table::new();
                core::mem::swap(self, &mut taken);
                let Table { mut keys, mut values } = taken;
                keys.push(key.to_owned());
                values.push(value);
                proof {
                    assert(texts(keys@) =~= before.keys().push(key@));
                    assert(texts(keys@).no_duplicates());
                }
                *self = Table { keys, values };
                proof {
                    assert(self.keys() == before.keys().push(key@));
                    assert forall|k: Seq<char>| #[trigger]
                        self.map().contains_key(k) <==> before.map().insert(
                        key@,
                        value,
                    ).contains_key(k) by {
                        if before.keys().contains(k) {
                            let p = before.keys().index_of(k);
                            assert(self.keys()[p] == k);
                        }
                        if k == key@ {
                            assert(self.keys()[before.keys().len() as int] == k);
                        }
                    }
                    assert forall|k: Seq<char>| #[trigger]
                        self.map().contains_key(k) implies self.map()[k] == before.map().insert(
                        key@,
                        value,
                    )[k] by {
                        let p = self.keys().index_of(k);
                        self.lemma_place(p);
                        if p < before.keys().len() {
                            before.lemma_place(p);
                        }
                    }
                    assert(self.map() =~= before.map().insert(key@, value));
                }
            },
        }
    }

    /// Takes every key out of the table.
    pub fn clear(&mut self)
        ensures
            final(self).wf(),
            final(self).keys() == Seq::<Seq<char>>::empty(),
            final(self).map() == Map::<Seq<char>, V>::empty(),
    {
        *self = Table { keys: Vec::new(), values: Vec::new() };
        proof {
            assert(self.keys() =~= Seq::<Seq<char>>::empty());
            assert(self.map() =~= Map::<Seq<char>, V>::empty());
        }
    }
}

} // verus!
